//! The playlist panel: a playlist's entries beside their resolution status,
//! with a cursor for browsing and the edits of the transactional editor.

use vstd::prelude::*;

verus! {

broadcast use vstd::seq_lib::group_seq_properties;

/// Whether an entry's file was located.
#[derive(Debug, Clone, Copy, PartialEq, Eq, Structural)]
pub enum EntryStatus {
    Found,
    NeedsConfirmation,
    Unavailable,
}

/// What resolving one entry came to: located (with the entry to keep in its
/// place when hints or tags were refreshed), candidates to confirm, or
/// nothing.
pub enum Resolved<E> {
    Found(Option<E>),
    NeedsConfirmation,
    Unavailable,
}

pub open spec fn status_of<E>(r: Resolved<E>) -> EntryStatus {
    match r {
        Resolved::Found(_) => EntryStatus::Found,
        Resolved::NeedsConfirmation => EntryStatus::NeedsConfirmation,
        Resolved::Unavailable => EntryStatus::Unavailable,
    }
}

/// The entry to keep after resolution: the refreshed one when there is one.
pub open spec fn healed<E>(e: E, r: Resolved<E>) -> E {
    match r {
        Resolved::Found(Some(u)) => u,
        _ => e,
    }
}

pub open spec fn refreshed<E>(r: Resolved<E>) -> bool {
    r matches Resolved::Found(Some(_))
}

pub struct PlaylistPanel<E> {
    pub path: String,
    pub entries: Vec<E>,
    pub cursor: usize,
    pub status: Vec<EntryStatus>,
}

impl<E> PlaylistPanel<E> {
    /// Each entry has its status.
    pub open spec fn wf(&self) -> bool {
        self.status@.len() == self.entries@.len()
    }

    /// The status shown for entry `i`; an entry without one shows unavailable.
    pub open spec fn status_spec(&self, i: int) -> EntryStatus {
        if 0 <= i < self.status@.len() {
            self.status@[i]
        } else {
            EntryStatus::Unavailable
        }
    }

    /// The panel over `entries` just read from `path`, before any resolution.
    pub fn new(path: String, entries: Vec<E>) -> (r: Self)
        ensures
            r.path == path,
            r.entries == entries,
            r.cursor == 0,
            r.status@.len() == 0,
    {
        PlaylistPanel { path, entries, cursor: 0, status: Vec::new() }
    }

    /// Take the outcome of resolving each entry: record each status and keep
    /// refreshed entries in place. Returns whether any entry was refreshed
    /// (the caller rewrites the file then, outside an edit).
    pub fn recompute_status(&mut self, outcomes: Vec<Resolved<E>>) -> (changed: bool)
        requires
            outcomes@.len() == old(self).entries@.len(),
        ensures
            final(self).wf(),
            final(self).path == old(self).path,
            final(self).cursor == old(self).cursor,
            final(self).entries@.len() == old(self).entries@.len(),
            forall|i: int|
                0 <= i < outcomes@.len() ==> final(self).entries@[i] == healed(
                    old(self).entries@[i],
                    #[trigger] outcomes@[i],
                ) && final(self).status@[i] == status_of(outcomes@[i]),
            changed == exists|i: int| 0 <= i < outcomes@.len() && refreshed(#[trigger] outcomes@[i]),
    {
        let ghost out0 = outcomes@;
        let ghost old_entries = self.entries@;
        let mut entries: Vec<E> = Vec::new();
        let mut status: Vec<EntryStatus> = Vec::new();
        let mut changed = false;
        let mut rest = outcomes;
        let mut olds: Vec<E> = Vec::new();
        std::mem::swap(&mut olds, &mut self.entries);
        let n: usize = rest.len();
        // Walk both lists from the back, then put the results in order.
        let mut k: usize = n;
        while k > 0
            invariant
                k <= n,
                n == out0.len(),
                n == old_entries.len(),
                rest@ == out0.take(k as int),
                olds@ == old_entries.take(k as int),
                entries@.len() == n - k,
                status@.len() == n - k,
                forall|j: int|
                    0 <= j < n - k ==> entries@[j] == healed(
                        old_entries[n - 1 - j],
                        #[trigger] out0[n - 1 - j],
                    ) && status@[j] == status_of(out0[n - 1 - j]),
                changed == exists|i: int| k <= i < n && refreshed(#[trigger] out0[i]),
            decreases k,
        {
            let r = rest.pop().unwrap();
            let e = olds.pop().unwrap();
            proof {
                assert(rest@ =~= out0.take(k - 1));
                assert(olds@ =~= old_entries.take(k - 1));
            }
            let ghost rr = r;
            let ghost ee = e;
            let (kept, st, fresh) = match r {
                Resolved::Found(Some(u)) => (u, EntryStatus::Found, true),
                Resolved::Found(None) => (e, EntryStatus::Found, false),
                Resolved::NeedsConfirmation => (e, EntryStatus::NeedsConfirmation, false),
                Resolved::Unavailable => (e, EntryStatus::Unavailable, false),
            };
            assert(kept == healed(ee, rr) && st == status_of(rr) && fresh == refreshed(rr));
            entries.push(kept);
            status.push(st);
            if fresh {
                changed = true;
            }
            k = k - 1;
            proof {
                assert(out0[k as int] == rr);
                assert(old_entries[k as int] == ee);
                if changed {
                    if !fresh {
                        let i = choose|i: int| k + 1 <= i < n && refreshed(#[trigger] out0[i]);
                        assert(k <= i < n && refreshed(out0[i]));
                    } else {
                        assert(refreshed(out0[k as int]));
                    }
                } else {
                    assert forall|i: int| k <= i < n implies !refreshed(#[trigger] out0[i]) by {
                        if i > k {
                        }
                    }
                }
            }
        }
        // Reverse into place.
        let mut fwd_e: Vec<E> = Vec::new();
        let mut fwd_s: Vec<EntryStatus> = Vec::new();
        let ghost re = entries@;
        let ghost rs = status@;
        let mut j: usize = 0;
        while j < n
            invariant
                n == out0.len(),
                n == old_entries.len(),
                re.len() == n,
                rs.len() == n,
                entries@ == re.take(n - j),
                status@ == rs.take(n - j),
                j <= n,
                fwd_e@.len() == j,
                fwd_s@.len() == j,
                forall|i: int| 0 <= i < j ==> fwd_e@[i] == #[trigger] re[n - 1 - i],
                forall|i: int| 0 <= i < j ==> fwd_s@[i] == #[trigger] rs[n - 1 - i],
            decreases n - j,
        {
            let e = entries.pop().unwrap();
            let s = status.pop().unwrap();
            fwd_e.push(e);
            fwd_s.push(s);
            proof {
                assert(entries@ =~= re.take(n - j - 1));
                assert(status@ =~= rs.take(n - j - 1));
            }
            j = j + 1;
        }
        proof {
            assert forall|i: int| 0 <= i < n implies fwd_e@[i] == healed(
                old_entries[i],
                #[trigger] out0[i],
            ) && fwd_s@[i] == status_of(out0[i]) by {
                assert(fwd_e@[i] == re[n - 1 - i]);
                assert(fwd_s@[i] == rs[n - 1 - i]);
                assert(n - 1 - (n - 1 - i) == i);
            }
        }
        self.entries = fwd_e;
        self.status = fwd_s;
        changed
    }

    /// The status shown for entry `i`.
    pub fn status_at(&self, i: usize) -> (r: EntryStatus)
        ensures
            r == self.status_spec(i as int),
    {
        if i < self.status.len() {
            self.status[i]
        } else {
            EntryStatus::Unavailable
        }
    }

    pub fn cursor_up(&mut self)
        ensures
            final(self).cursor == if old(self).cursor > 0 {
                old(self).cursor - 1
            } else {
                0
            },
            final(self).entries == old(self).entries,
            final(self).status == old(self).status,
            final(self).path == old(self).path,
    {
        self.cursor = self.cursor.saturating_sub(1);
    }

    pub fn cursor_down(&mut self)
        ensures
            final(self).cursor == if old(self).cursor + 1 < old(self).entries@.len() {
                old(self).cursor + 1
            } else {
                old(self).cursor as int
            },
            final(self).entries == old(self).entries,
            final(self).status == old(self).status,
            final(self).path == old(self).path,
    {
        if self.entries.len() > 0 && self.cursor < self.entries.len() - 1 {
            self.cursor = self.cursor + 1;
        }
    }

    /// Drop the entry under the cursor, keeping the cursor on the list.
    pub fn remove_at_cursor(&mut self)
        requires
            old(self).wf(),
        ensures
            final(self).wf(),
            final(self).path == old(self).path,
            old(self).cursor < old(self).entries@.len() ==> {
                &&& final(self).entries@ == old(self).entries@.remove(old(self).cursor as int)
                &&& final(self).status@ == old(self).status@.remove(old(self).cursor as int)
                &&& final(self).cursor == if old(self).cursor < final(self).entries@.len() {
                    old(self).cursor as int
                } else if final(self).entries@.len() > 0 {
                    final(self).entries@.len() - 1
                } else {
                    0
                }
            },
            old(self).cursor >= old(self).entries@.len() ==> *final(self) == *old(self),
    {
        if self.cursor < self.entries.len() {
            self.entries.remove(self.cursor);
            self.status.remove(self.cursor);
            let last = if self.entries.len() > 0 {
                self.entries.len() - 1
            } else {
                0
            };
            if self.cursor > last {
                self.cursor = last;
            }
        }
    }

    /// Swap the entry under the cursor with the one above, following it.
    pub fn move_up(&mut self)
        requires
            old(self).wf(),
            old(self).cursor == 0 || old(self).cursor < old(self).entries@.len(),
        ensures
            final(self).wf(),
            final(self).path == old(self).path,
            old(self).cursor > 0 ==> {
                &&& final(self).cursor == old(self).cursor - 1
                &&& final(self).entries@ == swapped(old(self).entries@, old(self).cursor - 1)
                &&& final(self).status@ == swapped(old(self).status@, old(self).cursor - 1)
            },
            old(self).cursor == 0 ==> *final(self) == *old(self),
    {
        if self.cursor > 0 {
            let c = self.cursor;
            let e = self.entries.remove(c);
            self.entries.insert(c - 1, e);
            let st = self.status.remove(c);
            self.status.insert(c - 1, st);
            self.cursor = c - 1;
            assert(self.entries@ =~= swapped(old(self).entries@, c - 1));
            assert(self.status@ =~= swapped(old(self).status@, c - 1));
        }
    }

    /// Swap the entry under the cursor with the one below, following it.
    pub fn move_down(&mut self)
        requires
            old(self).wf(),
        ensures
            final(self).wf(),
            final(self).path == old(self).path,
            old(self).cursor + 1 < old(self).entries@.len() ==> {
                &&& final(self).cursor == old(self).cursor + 1
                &&& final(self).entries@ == swapped(old(self).entries@, old(self).cursor as int)
                &&& final(self).status@ == swapped(old(self).status@, old(self).cursor as int)
            },
            old(self).cursor + 1 >= old(self).entries@.len() ==> *final(self) == *old(self),
    {
        if self.entries.len() > 0 && self.cursor < self.entries.len() - 1 {
            let c = self.cursor;
            let e = self.entries.remove(c);
            self.entries.insert(c + 1, e);
            let st = self.status.remove(c);
            self.status.insert(c + 1, st);
            self.cursor = c + 1;
            assert(self.entries@ =~= swapped(old(self).entries@, c as int));
            assert(self.status@ =~= swapped(old(self).status@, c as int));
        }
    }

    /// Insert `new_entries` at `at` (at most the end), each unavailable until
    /// the next resolution, and put the cursor on the first of them.
    pub fn insert_at(&mut self, at: usize, new_entries: Vec<E>)
        requires
            old(self).wf(),
        ensures
            final(self).wf(),
            final(self).path == old(self).path,
            ({
                let a = if at < old(self).entries@.len() {
                    at as int
                } else {
                    old(self).entries@.len() as int
                };
                &&& final(self).entries@ == old(self).entries@.take(a) + new_entries@ + old(
                    self,
                ).entries@.skip(a)
                &&& final(self).status@ == old(self).status@.take(a) + Seq::new(
                    new_entries@.len(),
                    |_i: int| EntryStatus::Unavailable,
                ) + old(self).status@.skip(a)
                &&& final(self).cursor == a
            }),
    {
        let n = self.entries.len();
        let at = if at < n {
            at
        } else {
            n
        };
        let ghost e0 = self.entries@;
        let ghost s0 = self.status@;
        let ghost ne = new_entries@;
        let mut rest = new_entries;
        // Insert from the last so each lands at `at`.
        while rest.len() > 0
            invariant
                at <= e0.len(),
                s0.len() == e0.len(),
                rest@.len() <= ne.len(),
                rest@ == ne.take(rest@.len() as int),
                self.entries@ == e0.take(at as int) + ne.skip(rest@.len() as int) + e0.skip(
                    at as int,
                ),
                self.status@ == s0.take(at as int) + Seq::new(
                    (ne.len() - rest@.len()) as nat,
                    |_i: int| EntryStatus::Unavailable,
                ) + s0.skip(at as int),
                self.path == old(self).path,
            decreases rest@.len(),
        {
            let ghost m = rest@.len();
            let e = rest.pop().unwrap();
            assert(rest@ =~= ne.take(m - 1));
            assert(e == ne[m - 1]);
            self.entries.insert(at, e);
            self.status.insert(at, EntryStatus::Unavailable);
            assert(self.entries@ =~= e0.take(at as int) + ne.skip(m - 1) + e0.skip(at as int));
            assert(self.status@ =~= s0.take(at as int) + Seq::new(
                (ne.len() - (m - 1)) as nat,
                |_i: int| EntryStatus::Unavailable,
            ) + s0.skip(at as int));
        }
        assert(ne.skip(0) =~= ne);
        self.cursor = at;
    }

    /// The entry auto-advance picks next: the first found strictly after
    /// `current`, or the first found when nothing plays yet.
    pub open spec fn next_up_spec(&self, current: Option<usize>) -> Option<int> {
        let start = match current {
            Some(c) => c + 1,
            None => 0,
        };
        first_found(self.status@, self.entries@.len() as int, start)
    }

    pub fn next_up(&self, current: Option<usize>) -> (r: Option<usize>)
        ensures
            match r {
                Some(i) => self.next_up_spec(current) == Some(i as int),
                None => self.next_up_spec(current) is None,
            },
    {
        let n = self.entries.len();
        let mut i: usize = match current {
            Some(c) => {
                if c >= n {
                    return None;
                }
                c + 1
            },
            None => 0,
        };
        let ghost start = i as int;
        while i < n
            invariant
                n == self.entries@.len(),
                start <= i <= n,
                self.next_up_spec(current) == first_found(self.status@, n as int, i as int),
            decreases n - i,
        {
            if self.status_at(i) == EntryStatus::Found {
                return Some(i);
            }
            i = i + 1;
        }
        None
    }
}

/// The first position in `from..n` whose status is found; a position without
/// a status is not.
pub open spec fn first_found(status: Seq<EntryStatus>, n: int, from: int) -> Option<int>
    decreases n - from,
{
    if from >= n {
        None
    } else if from < status.len() && status[from] == EntryStatus::Found {
        Some(from)
    } else {
        first_found(status, n, from + 1)
    }
}

/// `s` with positions `i` and `i + 1` exchanged.
pub open spec fn swapped<T>(s: Seq<T>, i: int) -> Seq<T> {
    s.update(i, s[i + 1]).update(i + 1, s[i])
}

/// Moving an entry down and then back up leaves the panel as it was: `mid`
/// is the panel after `move_down`, `post` after the `move_up` that follows.
pub proof fn lemma_move_down_up_restores<E>(
    pre: PlaylistPanel<E>,
    mid: PlaylistPanel<E>,
    post: PlaylistPanel<E>,
)
    requires
        pre.wf(),
        pre.cursor + 1 < pre.entries@.len(),
        mid.cursor == pre.cursor + 1,
        mid.entries@ == swapped(pre.entries@, pre.cursor as int),
        mid.status@ == swapped(pre.status@, pre.cursor as int),
        post.cursor == mid.cursor - 1,
        post.entries@ == swapped(mid.entries@, mid.cursor - 1),
        post.status@ == swapped(mid.status@, mid.cursor - 1),
    ensures
        post.cursor == pre.cursor,
        post.entries@ == pre.entries@,
        post.status@ == pre.status@,
{
    assert(post.entries@ =~= pre.entries@);
    assert(post.status@ =~= pre.status@);
}

/// Where the playing entry sits after the playlist was rewritten: the entry
/// with the same content hash as the one that played, else the old position
/// kept within the list.
pub open spec fn readopted(old_hashes: Seq<Seq<char>>, index: int, new_hashes: Seq<Seq<char>>) -> int {
    let fallback = if index < new_hashes.len() {
        index
    } else if new_hashes.len() > 0 {
        new_hashes.len() - 1
    } else {
        0
    };
    if 0 <= index < old_hashes.len() {
        match first_equal(new_hashes, old_hashes[index], 0) {
            Some(i) => i,
            None => fallback,
        }
    } else {
        fallback
    }
}

/// The first position at or after `from` holding `h`.
pub open spec fn first_equal(s: Seq<Seq<char>>, h: Seq<char>, from: int) -> Option<int>
    decreases s.len() - from,
{
    if from >= s.len() || from < 0 {
        None
    } else if s[from] == h {
        Some(from)
    } else {
        first_equal(s, h, from + 1)
    }
}

pub fn readopt_index(old_hashes: &Vec<String>, index: usize, new_hashes: &Vec<String>) -> (r: usize)
    ensures
        r == readopted(
            old_hashes@.map_values(|h: String| h@),
            index as int,
            new_hashes@.map_values(|h: String| h@),
        ),
{
    let ghost nh = new_hashes@.map_values(|h: String| h@);
    let ghost oh = old_hashes@.map_values(|h: String| h@);
    let n = new_hashes.len();
    let fallback = if index < n {
        index
    } else if n > 0 {
        n - 1
    } else {
        0
    };
    if index >= old_hashes.len() {
        return fallback;
    }
    let mut i: usize = 0;
    while i < n
        invariant
            n == new_hashes@.len(),
            index < old_hashes@.len(),
            nh == new_hashes@.map_values(|h: String| h@),
            oh == old_hashes@.map_values(|h: String| h@),
            first_equal(nh, oh[index as int], 0) == first_equal(nh, oh[index as int], i as int),
            i <= n,
        decreases n - i,
    {
        if new_hashes[i] == old_hashes[index] {
            assert(nh[i as int] == oh[index as int]);
            return i;
        }
        i = i + 1;
    }
    fallback
}

/// The candidate card that is active at line-scroll `offset`: the first
/// whose header is at or below the top of the view, else the last card.
pub open spec fn active_card(offset: usize, card_starts: Seq<usize>) -> int {
    let p = card_starts.filter(|s: usize| s < offset).len() as int;
    let last = if card_starts.len() > 0 {
        card_starts.len() - 1
    } else {
        0
    };
    if p < last {
        p
    } else {
        last
    }
}

/// The active candidate at line-scroll `offset`, given the cards' start
/// lines in increasing order.
pub fn confirm_active_card(offset: usize, card_starts: &Vec<usize>) -> (r: usize)
    requires
        forall|i: int, j: int|
            0 <= i < j < card_starts@.len() ==> #[trigger] card_starts@[i] <= #[trigger] card_starts@[j],
    ensures
        r == active_card(offset, card_starts@),
{
    let n = card_starts.len();
    let mut p: usize = 0;
    while p < n && card_starts[p] < offset
        invariant
            p <= n,
            n == card_starts@.len(),
            forall|i: int| 0 <= i < p ==> #[trigger] card_starts@[i] < offset,
            card_starts@.take(p as int).filter(|s: usize| s < offset).len() == p,
        decreases n - p,
    {
        proof {
            reveal(Seq::filter);
            assert(card_starts@.take(p + 1).drop_last() =~= card_starts@.take(p as int));
        }
        p = p + 1;
    }
    proof {
        // The starts from `p` on are all at or past `offset`.
        lemma_filter_prefix_len(card_starts@, offset, p as int);
    }
    let last = if n > 0 {
        n - 1
    } else {
        0
    };
    if p < last {
        p
    } else {
        last
    }
}

proof fn lemma_filter_prefix_len(s: Seq<usize>, offset: usize, p: int)
    requires
        0 <= p <= s.len(),
        s.take(p).filter(|x: usize| x < offset).len() == p,
        p == s.len() || s[p] >= offset,
        forall|i: int, j: int| 0 <= i < j < s.len() ==> #[trigger] s[i] <= #[trigger] s[j],
    ensures
        s.filter(|x: usize| x < offset).len() == p,
    decreases s.len() - p,
{
    let f = |x: usize| x < offset;
    let mut k = s.len() as int;
    if p < s.len() {
        // Every element from p on fails the test, so extending the prefix
        // leaves the count where it is.
        lemma_filter_tail(s, offset, p, s.len() as int);
        assert(s.take(s.len() as int) =~= s);
    } else {
        assert(s.take(p) =~= s);
    }
}

proof fn lemma_filter_tail(s: Seq<usize>, offset: usize, p: int, q: int)
    requires
        0 <= p < s.len(),
        p <= q <= s.len(),
        s[p] >= offset,
        forall|i: int, j: int| 0 <= i < j < s.len() ==> #[trigger] s[i] <= #[trigger] s[j],
    ensures
        s.take(q).filter(|x: usize| x < offset).len() == s.take(p).filter(|x: usize| x < offset).len(),
    decreases q - p,
{
    if q > p {
        lemma_filter_tail(s, offset, p, q - 1);
        reveal(Seq::filter);
        assert(s.take(q).drop_last() =~= s.take(q - 1));
        assert(s.take(q).last() == s[q - 1]);
        if q - 1 > p {
            assert(s[p] <= s[q - 1]);
        }
    }
}

/// Which context panel shows, and in an edit which side has the focus.
#[derive(Debug, Clone, Copy, PartialEq, Eq, Structural)]
pub enum PanelKind {
    Preview,
    Browse,
    EditBrowser,
    EditPlaylist,
    Confirm,
}

/// The browser dims while the playlist list is the active target: browsing a
/// playlist, confirming a candidate, or editing with the playlist focused.
pub fn dim_browser(kind: PanelKind) -> (r: bool)
    ensures
        r == (kind == PanelKind::Browse || kind == PanelKind::Confirm || kind
            == PanelKind::EditPlaylist),
{
    matches!(kind, PanelKind::Browse | PanelKind::Confirm | PanelKind::EditPlaylist)
}

} // verus!

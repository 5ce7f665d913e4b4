//! Per-track memory keyed by content identity, held as entries in key order
//! (so both copies of the file serialise in one deterministic order), with
//! a workspace mirror whose entries win when the two are reconciled.

use crate::paths::join_spec;
use crate::ranking::{lemma_text_lt_order, text_less, text_lt};
use crate::session::{idle_elapsed, idle_spec, mirror_path_for};
use crate::text::{chars_eq, chars_of};
use vstd::prelude::*;

verus! {

/// Keys strictly increasing as text.
pub open spec fn keys_ordered<E>(s: Seq<(String, E)>) -> bool {
    forall|i: int, j: int| 0 <= i < j < s.len() ==> text_lt(#[trigger] s[i].0@, #[trigger] s[j].0@)
}

/// The value stored under `k`: the last entry with that key wins.
pub open spec fn lookup<E>(s: Seq<(String, E)>, k: Seq<char>) -> Option<E>
    decreases s.len(),
{
    if s.len() == 0 {
        None
    } else if s.last().0@ == k {
        Some(s.last().1)
    } else {
        lookup(s.drop_last(), k)
    }
}

/// In key order, each key occurs once, and `lookup` finds its entry.
proof fn lemma_lookup_ordered<E>(s: Seq<(String, E)>, k: Seq<char>)
    requires
        keys_ordered(s),
    ensures
        forall|i: int| 0 <= i < s.len() && (#[trigger] s[i]).0@ == k ==> lookup(s, k) == Some(s[i].1),
        (forall|i: int| 0 <= i < s.len() ==> (#[trigger] s[i]).0@ != k) ==> lookup(s, k) is None,
    decreases s.len(),
{
    if s.len() > 0 {
        let t = s.drop_last();
        assert(keys_ordered(t)) by {
            assert forall|i: int, j: int| 0 <= i < j < t.len() implies text_lt(
                #[trigger] t[i].0@,
                #[trigger] t[j].0@,
            ) by {
                assert(t[i] == s[i] && t[j] == s[j]);
            }
        }
        lemma_lookup_ordered(t, k);
        if s.last().0@ == k {
            assert forall|i: int| 0 <= i < s.len() && (#[trigger] s[i]).0@ == k implies lookup(s, k)
                == Some(s[i].1) by {
                if i < s.len() - 1 {
                    assert(text_lt(s[i].0@, s[s.len() - 1].0@));
                    lemma_text_lt_order(k, k, k);
                }
            }
        } else {
            assert forall|i: int| 0 <= i < s.len() && (#[trigger] s[i]).0@ == k implies lookup(s, k)
                == Some(s[i].1) by {
                assert(i < s.len() - 1);
                assert(t[i] == s[i]);
            }
            assert((forall|i: int| 0 <= i < s.len() ==> (#[trigger] s[i]).0@ != k) ==> forall|
                i: int,
            |
                0 <= i < t.len() ==> (#[trigger] t[i]).0@ != k) by {
                if forall|i: int| 0 <= i < s.len() ==> (#[trigger] s[i]).0@ != k {
                    assert forall|i: int| 0 <= i < t.len() implies (#[trigger] t[i]).0@ != k by {
                        assert(t[i] == s[i]);
                    }
                }
            }
        }
    }
}

/// Where `key` belongs in `entries`: `Ok(i)` where entry `i` has it,
/// `Err(i)` where inserting it keeps the keys in order.
fn position<E>(entries: &Vec<(String, E)>, key: &[char]) -> (r: Result<usize, usize>)
    requires
        keys_ordered(entries@),
    ensures
        match r {
            Ok(i) => i < entries@.len() && entries@[i as int].0@ == key@,
            Err(i) => i <= entries@.len() && (forall|j: int|
                0 <= j < i ==> text_lt(#[trigger] entries@[j].0@, key@)) && (forall|j: int|
                i <= j < entries@.len() ==> text_lt(key@, #[trigger] entries@[j].0@)),
        },
{
    let mut i: usize = 0;
    while i < entries.len()
        invariant
            i <= entries@.len(),
            keys_ordered(entries@),
            forall|j: int| 0 <= j < i ==> text_lt(#[trigger] entries@[j].0@, key@),
        decreases entries@.len() - i,
    {
        let k = chars_of(entries[i].0.as_str());
        if chars_eq(&k, key) {
            return Ok(i);
        }
        if !text_less(&k, key) {
            proof {
                lemma_text_lt_order(key@, k@, k@);
                assert forall|j: int| i <= j < entries@.len() implies text_lt(
                    key@,
                    #[trigger] entries@[j].0@,
                ) by {
                    if j > i {
                        assert(text_lt(entries@[i as int].0@, entries@[j].0@));
                        lemma_text_lt_order(key@, k@, entries@[j].0@);
                    }
                }
            }
            return Err(i);
        }
        i = i + 1;
    }
    Err(i)
}

/// Replacing the entry at `i` leaves the lookup of every other key alone.
proof fn lemma_update_keeps_others<E>(
    a: Seq<(String, E)>,
    i: int,
    x: (String, E),
    k: Seq<char>,
)
    requires
        keys_ordered(a),
        keys_ordered(a.update(i, x)),
        0 <= i < a.len(),
        a[i].0@ != k,
        x.0@ != k,
    ensures
        lookup(a.update(i, x), k) == lookup(a, k),
{
    let b = a.update(i, x);
    lemma_lookup_ordered(a, k);
    lemma_lookup_ordered(b, k);
    if exists|j: int| 0 <= j < a.len() && (#[trigger] a[j]).0@ == k {
        let j = choose|j: int| 0 <= j < a.len() && (#[trigger] a[j]).0@ == k;
        assert(b[j] == a[j]);
    } else {
        assert forall|j: int| 0 <= j < b.len() implies (#[trigger] b[j]).0@ != k by {
            if j != i {
                assert(b[j] == a[j]);
            }
        }
    }
}

/// Inserting an entry at `i` leaves the lookup of every other key alone.
proof fn lemma_insert_keeps_others<E>(
    a: Seq<(String, E)>,
    i: int,
    x: (String, E),
    k: Seq<char>,
)
    requires
        keys_ordered(a),
        keys_ordered(a.insert(i, x)),
        0 <= i <= a.len(),
        x.0@ != k,
    ensures
        lookup(a.insert(i, x), k) == lookup(a, k),
{
    let b = a.insert(i, x);
    lemma_lookup_ordered(a, k);
    lemma_lookup_ordered(b, k);
    if exists|j: int| 0 <= j < a.len() && (#[trigger] a[j]).0@ == k {
        let j = choose|j: int| 0 <= j < a.len() && (#[trigger] a[j]).0@ == k;
        if j < i {
            assert(b[j] == a[j]);
        } else {
            assert(b[j + 1] == a[j]);
        }
    } else {
        assert forall|j: int| 0 <= j < b.len() implies (#[trigger] b[j]).0@ != k by {
            if j < i {
                assert(b[j] == a[j]);
            } else if j > i {
                assert(b[j] == a[j - 1]);
            }
        }
    }
}

/// Store `value` under `key`, replacing what was there, keeping key order.
fn put<E>(entries: &mut Vec<(String, E)>, key: String, value: E)
    requires
        keys_ordered(old(entries)@),
    ensures
        keys_ordered(final(entries)@),
        forall|k: Seq<char>|
            #[trigger] lookup(final(entries)@, k) == if k == key@ {
                Some(value)
            } else {
                lookup(old(entries)@, k)
            },
{
    let kv = chars_of(key.as_str());
    let ghost old_s = entries@;
    let ghost key_v = key@;
    match position(entries, &kv) {
        Ok(i) => {
            let ghost x = (key, value);
            entries.set(i, (key, value));
            let ghost new_s = entries@;
            assert(new_s == old_s.update(i as int, x));
            assert(keys_ordered(new_s)) by {
                assert forall|a: int, b: int| 0 <= a < b < new_s.len() implies text_lt(
                    #[trigger] new_s[a].0@,
                    #[trigger] new_s[b].0@,
                ) by {
                    assert(new_s[a].0@ == old_s[a].0@);
                    assert(new_s[b].0@ == old_s[b].0@);
                }
            }
            assert forall|k: Seq<char>| #[trigger] lookup(new_s, k) == if k == key_v {
                Some(value)
            } else {
                lookup(old_s, k)
            } by {
                if k != key_v {
                    lemma_update_keeps_others(old_s, i as int, x, k);
                } else {
                    lemma_lookup_ordered(new_s, k);
                    assert(new_s[i as int].0@ == k);
                }
            }
        },
        Err(i) => {
            let ghost x = (key, value);
            entries.insert(i, (key, value));
            let ghost new_s = entries@;
            assert(new_s == old_s.insert(i as int, x));
            assert(keys_ordered(new_s)) by {
                assert forall|a: int, b: int| 0 <= a < b < new_s.len() implies text_lt(
                    #[trigger] new_s[a].0@,
                    #[trigger] new_s[b].0@,
                ) by {
                    if a < i && b < i {
                        assert(new_s[a] == old_s[a] && new_s[b] == old_s[b]);
                    } else if a < i && b == i {
                        assert(new_s[a] == old_s[a]);
                    } else if a < i {
                        assert(new_s[a] == old_s[a] && new_s[b] == old_s[b - 1]);
                    } else if a == i {
                        assert(new_s[b] == old_s[b - 1]);
                    } else {
                        assert(new_s[a] == old_s[a - 1] && new_s[b] == old_s[b - 1]);
                    }
                }
            }
            assert forall|k: Seq<char>| #[trigger] lookup(new_s, k) == if k == key_v {
                Some(value)
            } else {
                lookup(old_s, k)
            } by {
                if k != key_v {
                    lemma_insert_keeps_others(old_s, i as int, x, k);
                } else {
                    lemma_lookup_ordered(new_s, k);
                    assert(new_s[i as int].0@ == k);
                }
            }
        },
    }
}

/// The track database: the canonical file's path, the workspace mirror's
/// path when a workspace is set, the entries in key order, and when it was
/// last changed (milliseconds on a monotonic clock) if not yet written.
pub struct TrackDatabase<E> {
    path: String,
    mirror_path: Option<String>,
    entries: Vec<(String, E)>,
    dirty_at: Option<u64>,
}

impl<E> TrackDatabase<E> {
    pub closed spec fn path_spec(&self) -> Seq<char> {
        self.path@
    }

    pub closed spec fn mirror_spec(&self) -> Option<Seq<char>> {
        match self.mirror_path {
            Some(m) => Some(m@),
            None => None,
        }
    }

    pub closed spec fn entries_spec(&self) -> Seq<(String, E)> {
        self.entries@
    }

    pub closed spec fn dirty_spec(&self) -> Option<u64> {
        self.dirty_at
    }

    /// The entries are in key order.
    pub open spec fn wf(&self) -> bool {
        keys_ordered(self.entries_spec())
    }

    /// What the database holds under `hash`.
    pub open spec fn get_spec(&self, hash: Seq<char>) -> Option<E> {
        lookup(self.entries_spec(), hash)
    }

    /// The database at `path` holding the entries read from it, in the
    /// order read: a later entry under a key replaces an earlier one.
    pub fn load(path: String, entries: Vec<(String, E)>) -> (r: Self)
        ensures
            r.wf(),
            r.path_spec() == path@,
            r.mirror_spec() is None,
            r.dirty_spec() is None,
            forall|k: Seq<char>| #[trigger] r.get_spec(k) == lookup(entries@, k),
    {
        let ghost all = entries@;
        let mut rest = entries;
        let mut held: Vec<(String, E)> = Vec::new();
        let ghost mut taken: int = 0;
        while rest.len() > 0
            invariant
                0 <= taken <= all.len(),
                rest@ == all.skip(taken),
                keys_ordered(held@),
                forall|k: Seq<char>| #[trigger] lookup(held@, k) == lookup(all.take(taken), k),
            decreases rest@.len(),
        {
            let (k, e) = rest.remove(0);
            proof {
                assert(all[taken] == (k, e));
                assert(all.take(taken + 1).drop_last() =~= all.take(taken));
                assert(all.take(taken + 1).last() == all[taken]);
                assert(rest@ =~= all.skip(taken + 1));
            }
            put(&mut held, k, e);
            proof {
                taken = taken + 1;
            }
        }
        proof {
            assert(all.take(taken) =~= all);
        }
        TrackDatabase { path, mirror_path: None, entries: held, dirty_at: None }
    }

    /// The entry stored under `hash`.
    pub fn get(&self, hash: &str) -> (r: Option<&E>)
        requires
            self.wf(),
        ensures
            match r {
                Some(e) => self.get_spec(hash@) == Some(*e),
                None => self.get_spec(hash@) is None,
            },
    {
        let kv = chars_of(hash);
        proof {
            lemma_lookup_ordered(self.entries@, hash@);
        }
        match position(&self.entries, &kv) {
            Ok(i) => Some(&self.entries[i].1),
            Err(i) => {
                proof {
                    assert forall|j: int| 0 <= j < self.entries@.len() implies (
                    #[trigger] self.entries@[j]).0@ != hash@ by {
                        lemma_text_lt_order(hash@, hash@, hash@);
                    }
                }
                None
            },
        }
    }

    /// Store `entry` under `hash` at `now`.
    pub fn set(&mut self, hash: String, entry: E, now: u64)
        requires
            old(self).wf(),
        ensures
            final(self).wf(),
            forall|k: Seq<char>|
                #[trigger] final(self).get_spec(k) == if k == hash@ {
                    Some(entry)
                } else {
                    old(self).get_spec(k)
                },
            final(self).dirty_spec() == Some(now),
            final(self).path_spec() == old(self).path_spec(),
            final(self).mirror_spec() == old(self).mirror_spec(),
    {
        put(&mut self.entries, hash, entry);
        self.dirty_at = Some(now);
    }

    /// Point the mirror at `workspace`'s copy of the database, or clear it;
    /// never at the canonical file itself.
    pub fn set_mirror(&mut self, workspace: Option<&str>)
        ensures
            match workspace {
                Some(w) => {
                    let m = join_spec(
                        w@,
                        seq!['t', 'r', 'a', 'c', 'k', '-', 'd', 'a', 't', 'a', '.', 'j', 's', 'o', 'n'],
                    );
                    if m == old(self).path_spec() {
                        final(self).mirror_spec() is None
                    } else {
                        final(self).mirror_spec() == Some(m)
                    }
                },
                None => final(self).mirror_spec() is None,
            },
            final(self).entries_spec() == old(self).entries_spec(),
            final(self).dirty_spec() == old(self).dirty_spec(),
            final(self).path_spec() == old(self).path_spec(),
    {
        self.mirror_path = mirror_path_for(self.path.as_str(), workspace);
    }

    /// Reconcile with the workspace copy's entries, read when the mirror was
    /// attached: the carried library wins on any shared identity, and the
    /// local-only entries stay. Says whether there is a mirror, and so
    /// whether both copies are now to be written; without one nothing
    /// changes.
    pub fn sync_with_mirror(&mut self, mirror_entries: Vec<(String, E)>) -> (r: bool)
        requires
            old(self).wf(),
        ensures
            final(self).wf(),
            r == old(self).mirror_spec() is Some,
            forall|k: Seq<char>|
                #[trigger] final(self).get_spec(k) == if r && lookup(mirror_entries@, k) is Some {
                    lookup(mirror_entries@, k)
                } else {
                    old(self).get_spec(k)
                },
            final(self).dirty_spec() == old(self).dirty_spec(),
            final(self).path_spec() == old(self).path_spec(),
            final(self).mirror_spec() == old(self).mirror_spec(),
    {
        if self.mirror_path.is_none() {
            return false;
        }
        let ghost start = self.entries@;
        let ghost all = mirror_entries@;
        let mut rest = mirror_entries;
        let ghost mut taken: int = 0;
        while rest.len() > 0
            invariant
                0 <= taken <= all.len(),
                rest@ == all.skip(taken),
                keys_ordered(self.entries@),
                self.mirror_path == old(self).mirror_path,
                self.path == old(self).path,
                self.dirty_at == old(self).dirty_at,
                start == old(self).entries@,
                forall|k: Seq<char>|
                    #[trigger] lookup(self.entries@, k) == if lookup(all.take(taken), k) is Some {
                        lookup(all.take(taken), k)
                    } else {
                        lookup(start, k)
                    },
            decreases rest@.len(),
        {
            let (k, e) = rest.remove(0);
            proof {
                assert(all[taken] == (k, e));
                assert(all.take(taken + 1).drop_last() =~= all.take(taken));
                assert(all.take(taken + 1).last() == all[taken]);
                assert(rest@ =~= all.skip(taken + 1));
            }
            put(&mut self.entries, k, e);
            proof {
                taken = taken + 1;
            }
        }
        proof {
            assert(all.take(taken) =~= all);
        }
        true
    }

    /// The entries, in key order: what both copies of the file hold.
    pub fn entries(&self) -> (r: &[(String, E)])
        ensures
            r@ == self.entries_spec(),
    {
        self.entries.as_slice()
    }

    /// The canonical file.
    pub fn path(&self) -> (r: &str)
        ensures
            r@ == self.path_spec(),
    {
        self.path.as_str()
    }

    /// The workspace copy, when a workspace is set.
    pub fn mirror_path(&self) -> (r: Option<&str>)
        ensures
            match r {
                Some(m) => self.mirror_spec() == Some(m@),
                None => self.mirror_spec() is None,
            },
    {
        match &self.mirror_path {
            Some(m) => Some(m.as_str()),
            None => None,
        }
    }

    /// At `now`: when the database has sat changed and untouched for a
    /// second, consider it written and say so (the caller writes both
    /// copies); otherwise leave it be.
    pub fn flush_if_idle(&mut self, now: u64) -> (r: bool)
        ensures
            r == idle_spec(old(self).dirty_spec(), now),
            final(self).dirty_spec() == if r {
                None
            } else {
                old(self).dirty_spec()
            },
            final(self).entries_spec() == old(self).entries_spec(),
            final(self).path_spec() == old(self).path_spec(),
            final(self).mirror_spec() == old(self).mirror_spec(),
    {
        if idle_elapsed(self.dirty_at, now) {
            self.dirty_at = None;
            true
        } else {
            false
        }
    }
}

} // verus!

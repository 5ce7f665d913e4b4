//! The file browser: which files count as audio, the listing's cursor model
//! (which entries the cursor may rest on and how it moves between them), the
//! search ranking, and the decisions the browser's keys make.

use crate::paths::{
    climb_then, climb_then_exec, common_parts, common_prefix_len, components, components_of,
    extension, extension_spec, parent, parent_spec, strip_prefix, strip_prefix_spec,
};
use crate::ranking::{as_ints, is_key_order, is_ranking, rank_by_score, sort_by_text};
use crate::text::{chars_eq, chars_of, string_of};
use vstd::prelude::*;

verus! {

broadcast use vstd::seq_lib::group_seq_properties;

/// The lowercase form of `s` under Unicode's case mapping, as
/// `str::to_lowercase` computes it.
pub uninterp spec fn lowercase(s: Seq<char>) -> Seq<char>;

/// `str::to_lowercase`. Claimed: the result is `lowercase` of the argument,
/// a function of the text alone.
#[verifier::external_body]
pub(crate) fn lowercase_of(s: &str) -> (r: String)
    ensures
        r@ == lowercase(s@),
{
    s.to_lowercase()
}

/// The extensions, already lowercased, that name an audio file.
pub open spec fn audio_extension(e: Seq<char>) -> bool {
    ||| e == seq!['f', 'l', 'a', 'c']
    ||| e == seq!['m', 'p', '3']
    ||| e == seq!['o', 'g', 'g']
    ||| e == seq!['w', 'a', 'v']
    ||| e == seq!['a', 'a', 'c']
    ||| e == seq!['o', 'p', 'u', 's']
    ||| e == seq!['m', '4', 'a']
}

/// A path names an audio file when its extension, lowercased, is one of the
/// audio extensions.
pub open spec fn is_audio_spec(path: Seq<char>) -> bool {
    match extension_spec(path) {
        Some(e) => audio_extension(lowercase(e)),
        None => false,
    }
}

/// Whether an already lowercased extension is an audio extension.
pub fn is_audio_extension(lowered: &str) -> (r: bool)
    ensures
        r == audio_extension(lowered@),
{
    let e = chars_of(lowered);
    chars_eq(&e, &['f', 'l', 'a', 'c']) || chars_eq(&e, &['m', 'p', '3']) || chars_eq(
        &e,
        &['o', 'g', 'g'],
    ) || chars_eq(&e, &['w', 'a', 'v']) || chars_eq(&e, &['a', 'a', 'c']) || chars_eq(
        &e,
        &['o', 'p', 'u', 's'],
    ) || chars_eq(&e, &['m', '4', 'a'])
}

/// Whether `path` names an audio file, by its extension in any case.
pub fn is_audio(path: &str) -> (r: bool)
    ensures
        r == is_audio_spec(path@),
{
    match extension(path) {
        Some(e) => {
            let lowered = lowercase_of(e.as_str());
            is_audio_extension(lowered.as_str())
        },
        None => false,
    }
}

#[derive(Debug, Clone, Copy, PartialEq, Eq, Structural)]
pub enum EntryKind {
    Dir,
    Audio,
    Other,
}

/// The browser is modal: letters are commands in `Command`, type into the
/// filter in `Search`, and `Move` is the transient mode for choosing a
/// destination folder.
#[derive(Debug, Clone, Copy, PartialEq, Eq, Structural)]
pub enum BrowserMode {
    Command,
    Search,
    Move,
}

pub struct BrowserEntry {
    pub name: String,
    pub path: String,
    pub kind: EntryKind,
}

/// What leaving the browser hands back to the player.
pub enum BrowserResult {
    Selected(String),
    DirectoryChosen(String),
    WorkspaceSet(String),
    WorkspaceCleared,
    ReturnToPlayer,
}

pub struct BrowserState {
    pub cwd: String,
    pub entries: Vec<BrowserEntry>,
    pub cursor: usize,
    pub workspace: Option<String>,
    pub search_term: String,
    pub search_results: Option<Vec<String>>,
    /// All audio files under the workspace, gathered on the first search.
    pub workspace_files: Option<Vec<String>>,
    pub mode: BrowserMode,
}

/// Directories and audio files can be selected; other files cannot.
pub open spec fn selectable(k: EntryKind) -> bool {
    k == EntryKind::Dir || k == EntryKind::Audio
}

/// Whether the cursor may rest on an entry of kind `k` in `mode`: choosing a
/// destination stops only on folders.
pub open spec fn stop_in(mode: BrowserMode, k: EntryKind) -> bool {
    if mode == BrowserMode::Move {
        k == EntryKind::Dir
    } else {
        selectable(k)
    }
}

pub open spec fn is_dotdot(s: Seq<char>) -> bool {
    s == seq!['.', '.']
}

/// Entry `i` of `es` exists and the cursor may rest on it in `mode`.
pub open spec fn stop_at(mode: BrowserMode, es: Seq<BrowserEntry>, i: int) -> bool {
    0 <= i < es.len() && stop_in(mode, es[i].kind)
}

/// Entry `i` is a stop other than "..".
pub open spec fn content_stop_at(mode: BrowserMode, es: Seq<BrowserEntry>, i: int) -> bool {
    stop_at(mode, es, i) && !is_dotdot(es[i].name@)
}

/// The first stop in `lo..hi`.
pub open spec fn first_stop_in(mode: BrowserMode, es: Seq<BrowserEntry>, lo: int, hi: int) -> Option<
    int,
>
    decreases hi - lo,
{
    if lo >= hi {
        None
    } else if stop_at(mode, es, lo) {
        Some(lo)
    } else {
        first_stop_in(mode, es, lo + 1, hi)
    }
}

/// The last stop in `lo..hi`.
pub open spec fn last_stop_in(mode: BrowserMode, es: Seq<BrowserEntry>, lo: int, hi: int) -> Option<
    int,
>
    decreases hi - lo,
{
    if lo >= hi {
        None
    } else if stop_at(mode, es, hi - 1) {
        Some(hi - 1)
    } else {
        last_stop_in(mode, es, lo, hi - 1)
    }
}

/// The first stop in `lo..hi` that is not "..".
pub open spec fn first_content_stop_in(
    mode: BrowserMode,
    es: Seq<BrowserEntry>,
    lo: int,
    hi: int,
) -> Option<int>
    decreases hi - lo,
{
    if lo >= hi {
        None
    } else if content_stop_at(mode, es, lo) {
        Some(lo)
    } else {
        first_content_stop_in(mode, es, lo + 1, hi)
    }
}

impl BrowserState {
    /// Entry `i` exists and the cursor may rest on it.
    pub open spec fn is_stop(&self, i: int) -> bool {
        stop_at(self.mode, self.entries@, i)
    }

    /// Entry `i` is a stop other than "..".
    pub open spec fn is_content_stop(&self, i: int) -> bool {
        content_stop_at(self.mode, self.entries@, i)
    }

    pub open spec fn first_stop(&self, lo: int, hi: int) -> Option<int> {
        first_stop_in(self.mode, self.entries@, lo, hi)
    }

    pub open spec fn last_stop(&self, lo: int, hi: int) -> Option<int> {
        last_stop_in(self.mode, self.entries@, lo, hi)
    }

    pub open spec fn first_content_stop(&self, lo: int, hi: int) -> Option<int> {
        first_content_stop_in(self.mode, self.entries@, lo, hi)
    }

    /// Where the cursor lands on arriving in a listing: the first stop that
    /// is not "..", else the first stop, else the top.
    pub open spec fn landing(&self) -> int {
        let n = self.entries@.len() as int;
        match self.first_content_stop(0, n) {
            Some(i) => i,
            None => match self.first_stop(0, n) {
                Some(i) => i,
                None => 0,
            },
        }
    }

    /// Where `move_down` puts the cursor.
    pub open spec fn below(&self) -> int {
        match self.first_stop(self.cursor + 1, self.entries@.len() as int) {
            Some(i) => i,
            None => self.cursor as int,
        }
    }

    /// Where `move_up` puts the cursor.
    pub open spec fn above(&self) -> int {
        match self.last_stop(0, self.cursor as int) {
            Some(i) => i,
            None => self.cursor as int,
        }
    }

    /// The state with only the cursor changed.
    pub open spec fn at_cursor(self, c: usize) -> Self {
        BrowserState {
            cwd: self.cwd,
            entries: self.entries,
            cursor: c,
            workspace: self.workspace,
            search_term: self.search_term,
            search_results: self.search_results,
            workspace_files: self.workspace_files,
            mode: self.mode,
        }
    }
}

/// `first_stop` finds the smallest stop in its range.
pub proof fn lemma_first_stop(s: &BrowserState, lo: int, hi: int)
    ensures
        match s.first_stop(lo, hi) {
            Some(i) => lo <= i < hi && s.is_stop(i) && forall|j: int|
                lo <= j < i ==> !#[trigger] s.is_stop(j),
            None => forall|j: int| lo <= j < hi ==> !#[trigger] s.is_stop(j),
        },
    decreases hi - lo,
{
    if lo < hi {
        lemma_first_stop(s, lo + 1, hi);
    }
}

/// `last_stop` finds the largest stop in its range.
pub proof fn lemma_last_stop(s: &BrowserState, lo: int, hi: int)
    ensures
        match s.last_stop(lo, hi) {
            Some(i) => lo <= i < hi && s.is_stop(i) && forall|j: int|
                i < j < hi ==> !#[trigger] s.is_stop(j),
            None => forall|j: int| lo <= j < hi ==> !#[trigger] s.is_stop(j),
        },
    decreases hi - lo,
{
    if lo < hi {
        lemma_last_stop(s, lo, hi - 1);
    }
}

/// `first_content_stop` finds the smallest stop other than "..".
pub proof fn lemma_first_content_stop(s: &BrowserState, lo: int, hi: int)
    ensures
        match s.first_content_stop(lo, hi) {
            Some(i) => lo <= i < hi && s.is_content_stop(i) && forall|j: int|
                lo <= j < i ==> !#[trigger] s.is_content_stop(j),
            None => forall|j: int| lo <= j < hi ==> !#[trigger] s.is_content_stop(j),
        },
    decreases hi - lo,
{
    if lo < hi {
        lemma_first_content_stop(s, lo + 1, hi);
    }
}

fn kind_is_stop(mode: BrowserMode, kind: EntryKind) -> (r: bool)
    ensures
        r == stop_in(mode, kind),
{
    match mode {
        BrowserMode::Move => matches!(kind, EntryKind::Dir),
        _ => matches!(kind, EntryKind::Dir | EntryKind::Audio),
    }
}

fn name_is_dotdot(name: &String) -> (r: bool)
    ensures
        r == is_dotdot(name@),
{
    let v = chars_of(name.as_str());
    chars_eq(&v, &['.', '.'])
}

impl BrowserState {
    /// A browser over a listing already gathered, with the cursor at the top
    /// and no workspace, search or move in progress.
    pub fn with_entries(cwd: String, entries: Vec<BrowserEntry>) -> (r: Self)
        ensures
            r.cwd == cwd,
            r.entries == entries,
            r.cursor == 0,
            r.workspace is None,
            r.search_term@ == Seq::<char>::empty(),
            r.search_results is None,
            r.workspace_files is None,
            r.mode == BrowserMode::Command,
    {
        BrowserState {
            cwd,
            entries,
            cursor: 0,
            workspace: None,
            search_term: String::new(),
            search_results: None,
            workspace_files: None,
            mode: BrowserMode::Command,
        }
    }

    pub fn is_selectable(kind: &EntryKind) -> (r: bool)
        ensures
            r == selectable(*kind),
    {
        matches!(kind, EntryKind::Dir | EntryKind::Audio)
    }

    /// The primary mode to restore on reopen: `Move` is transient and
    /// collapses to `Command`.
    pub fn primary_mode(&self) -> (r: BrowserMode)
        ensures
            r == (if self.mode == BrowserMode::Search {
                BrowserMode::Search
            } else {
                BrowserMode::Command
            }),
    {
        match self.mode {
            BrowserMode::Search => BrowserMode::Search,
            _ => BrowserMode::Command,
        }
    }

    /// Whether the cursor may rest on an entry of this kind.
    pub fn is_cursor_stop(&self, kind: &EntryKind) -> (r: bool)
        ensures
            r == stop_in(self.mode, *kind),
    {
        kind_is_stop(self.mode, *kind)
    }

    /// The first stop in `lo..entries.len()`.
    fn find_first_stop(&self, lo: usize, content_only: bool) -> (r: Option<usize>)
        ensures
            content_only ==> match r {
                Some(i) => self.first_content_stop(lo as int, self.entries@.len() as int) == Some(
                    i as int,
                ),
                None => self.first_content_stop(lo as int, self.entries@.len() as int) is None,
            },
            !content_only ==> match r {
                Some(i) => self.first_stop(lo as int, self.entries@.len() as int) == Some(i as int),
                None => self.first_stop(lo as int, self.entries@.len() as int) is None,
            },
    {
        let n = self.entries.len();
        let mut i = lo;
        if i >= n {
            return None;
        }
        while i < n
            invariant
                n == self.entries@.len(),
                lo <= i <= n,
                content_only ==> self.first_content_stop(lo as int, n as int)
                    == self.first_content_stop(i as int, n as int),
                !content_only ==> self.first_stop(lo as int, n as int) == self.first_stop(
                    i as int,
                    n as int,
                ),
            decreases n - i,
        {
            if kind_is_stop(self.mode, self.entries[i].kind) && (!content_only
                || !name_is_dotdot(&self.entries[i].name)) {
                return Some(i);
            }
            i = i + 1;
        }
        None
    }

    /// The last stop in `0..hi`.
    fn find_last_stop(&self, hi: usize) -> (r: Option<usize>)
        requires
            hi <= self.entries@.len(),
        ensures
            match r {
                Some(i) => self.last_stop(0, hi as int) == Some(i as int),
                None => self.last_stop(0, hi as int) is None,
            },
    {
        let mut i = hi;
        while i > 0
            invariant
                i <= hi <= self.entries@.len(),
                self.last_stop(0, hi as int) == self.last_stop(0, i as int),
            decreases i,
        {
            if kind_is_stop(self.mode, self.entries[i - 1].kind) {
                return Some(i - 1);
            }
            i = i - 1;
        }
        None
    }

    /// Place the cursor on the first navigable entry, skipping "..".
    pub fn snap_to_cursor_stop(&mut self)
        ensures
            *final(self) == old(self).at_cursor(final(self).cursor),
            final(self).cursor == old(self).landing(),
    {
        let c = match self.find_first_stop(0, true) {
            Some(i) => i,
            None => match self.find_first_stop(0, false) {
                Some(i) => i,
                None => 0,
            },
        };
        self.cursor = c;
    }

    /// Move to the next stop below the cursor; stay put when there is none.
    pub fn move_down(&mut self)
        ensures
            *final(self) == old(self).at_cursor(final(self).cursor),
            final(self).cursor == old(self).below(),
    {
        if self.cursor >= self.entries.len() {
            return;
        }
        if let Some(i) = self.find_first_stop(self.cursor + 1, false) {
            self.cursor = i;
        }
    }

    /// Move to the nearest stop above the cursor; stay put when there is none.
    pub fn move_up(&mut self)
        requires
            old(self).cursor <= old(self).entries@.len(),
        ensures
            *final(self) == old(self).at_cursor(final(self).cursor),
            final(self).cursor == old(self).above(),
    {
        if let Some(i) = self.find_last_stop(self.cursor) {
            self.cursor = i;
        }
    }
}

/// The cursor only ever comes to rest on a stop: moving down or up from
/// anywhere either leaves it where it was or puts it on an entry it may
/// rest on, and never past either end of the listing.
pub proof fn lemma_moves_land_on_stops(s: &BrowserState)
    requires
        s.cursor <= s.entries@.len(),
    ensures
        s.below() == s.cursor || (s.cursor < s.below() && s.is_stop(s.below())),
        s.above() == s.cursor || (s.above() < s.cursor && s.is_stop(s.above())),
        s.cursor < s.entries@.len() ==> s.below() < s.entries@.len(),
        0 <= s.above(),
{
    lemma_first_stop(s, s.cursor + 1, s.entries@.len() as int);
    lemma_last_stop(s, 0, s.cursor as int);
}

/// Moving down passes over no stop, and moving up likewise: each lands on
/// the nearest stop in its direction.
pub proof fn lemma_moves_are_nearest(s: &BrowserState)
    ensures
        forall|j: int| s.cursor < j < s.below() ==> !#[trigger] s.is_stop(j),
        forall|j: int| s.above() < j < s.cursor ==> !#[trigger] s.is_stop(j),
{
    lemma_first_stop(s, s.cursor + 1, s.entries@.len() as int);
    lemma_last_stop(s, 0, s.cursor as int);
}

/// From a stop, moving down and then back up returns to where the cursor
/// started, and so does moving up and then back down: `t` is the browser
/// after the first move.
pub proof fn lemma_down_up_returns(s: &BrowserState, t: &BrowserState)
    requires
        s.is_stop(s.cursor as int),
        *t == s.at_cursor(t.cursor),
    ensures
        t.cursor == s.below() && t.cursor != s.cursor ==> t.above() == s.cursor,
        t.cursor == s.above() && t.cursor != s.cursor ==> t.below() == s.cursor,
{
    let n = s.entries@.len() as int;
    lemma_first_stop(s, s.cursor + 1, n);
    lemma_last_stop(s, 0, s.cursor as int);
    lemma_last_stop(t, 0, t.cursor as int);
    lemma_first_stop(t, t.cursor + 1, n);
    assert(forall|j: int| #[trigger] t.is_stop(j) == s.is_stop(j));
    if t.cursor == s.below() && t.cursor != s.cursor {
        match t.last_stop(0, t.cursor as int) {
            Some(i) => {
                if i > s.cursor {
                    assert(s.is_stop(i));
                }
                if i < s.cursor {
                    assert(t.is_stop(s.cursor as int));
                }
            },
            None => {
                assert(t.is_stop(s.cursor as int));
            },
        }
    }
    if t.cursor == s.above() && t.cursor != s.cursor {
        match t.first_stop(t.cursor + 1, n) {
            Some(i) => {
                if i < s.cursor {
                    assert(s.is_stop(i));
                }
                if i > s.cursor {
                    assert(t.is_stop(s.cursor as int));
                }
            },
            None => {
                assert(t.is_stop(s.cursor as int));
            },
        }
    }
}

/// Arriving in a listing puts the cursor on a stop other than ".." when
/// there is one, else on a stop when there is one.
pub proof fn lemma_landing(s: &BrowserState)
    ensures
        (exists|j: int| s.is_content_stop(j)) ==> s.is_content_stop(s.landing()),
        (exists|j: int| s.is_stop(j)) ==> s.is_stop(s.landing()),
        (forall|j: int| !s.is_stop(j)) ==> s.landing() == 0,
{
    let n = s.entries@.len() as int;
    lemma_first_content_stop(s, 0, n);
    lemma_first_stop(s, 0, n);
    if let Some(i) = s.first_content_stop(0, n) {
        assert(s.is_stop(i));
    }
    if let Some(i) = s.first_stop(0, n) {
        assert(s.is_stop(i));
    }
}


/// `SkimMatcherV2::default().fuzzy_match(choice, pattern)`: the fuzzy-match
/// score of `choice` against `pattern`, none when it does not match.
pub uninterp spec fn skim_score(choice: Seq<char>, pattern: Seq<char>) -> Option<i64>;

/// `SkimMatcherV2::fuzzy_match` with the default matcher. Claimed: the result
/// is `skim_score` of the two texts, and an empty pattern scores 0 (the
/// matcher's first test).
#[verifier::external_body]
fn fuzzy_score(choice: &str, pattern: &str) -> (r: Option<i64>)
    ensures
        r == skim_score(choice@, pattern@),
        pattern@.len() == 0 ==> r == Some(0i64),
{
    fuzzy_matcher::FuzzyMatcher::fuzzy_match(
        &fuzzy_matcher::skim::SkimMatcherV2::default(),
        choice,
        pattern,
    )
}

/// How a workspace file is shown and matched: its path below the workspace
/// when it lies under it, else its whole path.
pub open spec fn display_under(path: Seq<char>, workspace: Seq<char>) -> Seq<char> {
    match strip_prefix_spec(path, workspace) {
        Some(rest) => rest,
        None => path,
    }
}

/// `r` lists `items` in the order that ranks `scores`.
pub open spec fn ranked_as(r: Seq<String>, scores: Seq<Option<i64>>, items: Seq<String>) -> bool {
    exists|order: Seq<int>|
        #[trigger] is_ranking(scores, order) && r == order.map_values(|i: int| items[i])
}

/// The scores of the workspace files against `term`.
pub open spec fn file_scores(files: Seq<String>, workspace: Seq<char>, term: Seq<char>) -> Seq<
    Option<i64>,
> {
    Seq::new(files.len(), |k: int| skim_score(display_under(files[k]@, workspace), term))
}

/// A listing entry takes part in a search when it is selectable and not "..".
pub open spec fn searchable(e: BrowserEntry) -> bool {
    !is_dotdot(e.name@) && selectable(e.kind)
}

/// The scores of the listing's entries against `term`; entries that take no
/// part in a search have none.
pub open spec fn entry_scores(entries: Seq<BrowserEntry>, term: Seq<char>) -> Seq<Option<i64>> {
    Seq::new(
        entries.len(),
        |k: int|
            if searchable(entries[k]) {
                skim_score(entries[k].name@, term)
            } else {
                None
            },
    )
}

pub open spec fn entry_paths(entries: Seq<BrowserEntry>) -> Seq<String> {
    entries.map_values(|e: BrowserEntry| e.path)
}

/// Rank `items` by `scores` and keep the matched ones.
fn collect_ranked(scores: &Vec<Option<i64>>, items: &Vec<String>) -> (r: Vec<String>)
    requires
        scores@.len() == items@.len(),
    ensures
        ranked_as(r@, scores@, items@),
{
    let order = rank_by_score(scores);
    let ghost o = order@.map_values(|i: usize| i as int);
    let mut out: Vec<String> = Vec::new();
    let mut i: usize = 0;
    while i < order.len()
        invariant
            i <= order@.len(),
            o == order@.map_values(|i: usize| i as int),
            is_ranking(scores@, o),
            scores@.len() == items@.len(),
            out@ == o.take(i as int).map_values(|j: int| items@[j]),
        decreases order.len() - i,
    {
        assert(0 <= o[i as int] < scores@.len());
        let it = items[order[i]].clone();
        out.push(it);
        assert(o.take(i + 1) =~= o.take(i as int).push(o[i as int]));
        assert(out@ =~= o.take(i + 1).map_values(|j: int| items@[j]));
        i = i + 1;
    }
    assert(o.take(o.len() as int) =~= o);
    assert(is_ranking(scores@, o) && out@ == o.map_values(|j: int| items@[j]));
    out
}

/// Search the workspace files: each is matched by its path below the
/// workspace, and the matches come back best first.
pub fn run_search(term: &str, files: &Vec<String>, workspace: &str) -> (r: Vec<String>)
    ensures
        ranked_as(r@, file_scores(files@, workspace@, term@), files@),
{
    let mut scores: Vec<Option<i64>> = Vec::new();
    let mut k: usize = 0;
    while k < files.len()
        invariant
            k <= files@.len(),
            scores@ == file_scores(files@, workspace@, term@).take(k as int),
        decreases files.len() - k,
    {
        let shown = match strip_prefix(files[k].as_str(), workspace) {
            Some(rest) => rest,
            None => files[k].clone(),
        };
        let sc = fuzzy_score(shown.as_str(), term);
        scores.push(sc);
        assert(scores@ =~= file_scores(files@, workspace@, term@).take(k + 1));
        k = k + 1;
    }
    assert(scores@ =~= file_scores(files@, workspace@, term@));
    collect_ranked(&scores, files)
}

/// Search the current listing: its selectable entries other than "..",
/// matched by name, best first.
pub fn search_entries(term: &str, entries: &Vec<BrowserEntry>) -> (r: Vec<String>)
    ensures
        ranked_as(r@, entry_scores(entries@, term@), entry_paths(entries@)),
{
    let mut scores: Vec<Option<i64>> = Vec::new();
    let mut items: Vec<String> = Vec::new();
    let mut k: usize = 0;
    while k < entries.len()
        invariant
            k <= entries@.len(),
            scores@ == entry_scores(entries@, term@).take(k as int),
            items@ == entry_paths(entries@).take(k as int),
        decreases entries.len() - k,
    {
        let e = &entries[k];
        let sc = if !name_is_dotdot(&e.name) && BrowserState::is_selectable(&e.kind) {
            fuzzy_score(e.name.as_str(), term)
        } else {
            None
        };
        scores.push(sc);
        items.push(e.path.clone());
        assert(scores@ =~= entry_scores(entries@, term@).take(k + 1));
        assert(items@ =~= entry_paths(entries@).take(k + 1));
        k = k + 1;
    }
    assert(scores@ =~= entry_scores(entries@, term@));
    assert(items@ =~= entry_paths(entries@));
    collect_ranked(&scores, &items)
}

/// `target` as the browser's title shows it from `base`: "./" and the rest
/// when `base` leads `target`, else climbing out of `base` with "..".
pub open spec fn relative_path_spec(base: Seq<char>, target: Seq<char>) -> Seq<char> {
    match strip_prefix_spec(target, base) {
        Some(rest) => seq!['.', '/'] + rest,
        None => {
            let b = components(base);
            let t = components(target);
            let common = common_prefix_len(b, t);
            climb_then((b.len() - common) as nat, t.skip(common as int))
        },
    }
}

pub fn relative_path(base: &str, target: &str) -> (r: String)
    ensures
        r@ == relative_path_spec(base@, target@),
{
    match strip_prefix(target, base) {
        Some(rest) => {
            let mut out: Vec<char> = vec!['.', '/'];
            let rv = chars_of(rest.as_str());
            crate::text::push_chars(&mut out, &rv);
            assert(out@ =~= seq!['.', '/'] + rest@);
            string_of(&out)
        },
        None => {
            let bv = chars_of(base);
            let tv = chars_of(target);
            let b = components_of(&bv);
            let t = components_of(&tv);
            let common = common_parts(&b, &t);
            let out = climb_then_exec(b.len() - common, &t, common);
            string_of(&out)
        },
    }
}

impl BrowserState {
    /// The path of the highlighted audio file: the highlighted search result
    /// while results show, else the highlighted entry when it is audio.
    pub open spec fn highlighted(&self) -> Option<String> {
        match self.search_results {
            Some(res) => if self.cursor < res@.len() {
                Some(res@[self.cursor as int])
            } else {
                None
            },
            None => if self.cursor < self.entries@.len() && self.entries@[self.cursor as int].kind
                == EntryKind::Audio {
                Some(self.entries@[self.cursor as int].path)
            } else {
                None
            },
        }
    }

    pub fn highlighted_audio_path(&self) -> (r: Option<String>)
        ensures
            r == self.highlighted(),
    {
        match &self.search_results {
            Some(results) => {
                if self.cursor < results.len() {
                    Some(results[self.cursor].clone())
                } else {
                    None
                }
            },
            None => {
                if self.cursor < self.entries.len() && matches!(
                    self.entries[self.cursor].kind,
                    EntryKind::Audio
                ) {
                    Some(self.entries[self.cursor].path.clone())
                } else {
                    None
                }
            },
        }
    }

    /// Where `nav_down` puts the cursor: one result down while results show,
    /// else the next stop.
    pub open spec fn nav_below(&self) -> int {
        match self.search_results {
            Some(res) => if self.cursor + 1 < res@.len() {
                self.cursor + 1
            } else {
                self.cursor as int
            },
            None => self.below(),
        }
    }

    /// Where `nav_up` puts the cursor.
    pub open spec fn nav_above(&self) -> int {
        match self.search_results {
            Some(res) => if self.cursor > 0 {
                self.cursor - 1
            } else {
                self.cursor as int
            },
            None => self.above(),
        }
    }

    /// The cursor may move over the listing: it is within it or just past.
    pub open spec fn cursor_in_listing(&self) -> bool {
        self.search_results is Some || self.cursor <= self.entries@.len()
    }

    /// Move down over whichever list is showing.
    pub fn nav_down(&mut self)
        ensures
            *final(self) == old(self).at_cursor(final(self).cursor),
            final(self).cursor == old(self).nav_below(),
    {
        match &self.search_results {
            Some(results) => {
                if results.len() > 0 && self.cursor < results.len() - 1 {
                    self.cursor = self.cursor + 1;
                }
            },
            None => self.move_down(),
        }
    }

    /// Move up over whichever list is showing.
    pub fn nav_up(&mut self)
        requires
            old(self).cursor_in_listing(),
        ensures
            *final(self) == old(self).at_cursor(final(self).cursor),
            final(self).cursor == old(self).nav_above(),
    {
        if self.search_results.is_some() {
            if self.cursor > 0 {
                self.cursor = self.cursor - 1;
            }
        } else {
            self.move_up();
        }
    }

    /// Make the current directory the search workspace.
    pub fn set_workspace(&mut self) -> (r: Option<BrowserResult>)
        ensures
            final(self).workspace == Some(old(self).cwd),
            final(self).workspace_files is None,
            final(self).cwd == old(self).cwd,
            final(self).entries == old(self).entries,
            final(self).cursor == old(self).cursor,
            final(self).search_term == old(self).search_term,
            final(self).search_results == old(self).search_results,
            final(self).mode == old(self).mode,
            r == Some(BrowserResult::WorkspaceSet(old(self).cwd)),
    {
        self.workspace = Some(self.cwd.clone());
        self.workspace_files = None;
        Some(BrowserResult::WorkspaceSet(self.cwd.clone()))
    }

    /// Forget the workspace and any search.
    pub fn clear_workspace(&mut self) -> (r: Option<BrowserResult>)
        ensures
            final(self).workspace is None,
            final(self).workspace_files is None,
            final(self).search_term@ == Seq::<char>::empty(),
            final(self).search_results is None,
            final(self).cursor == 0,
            final(self).cwd == old(self).cwd,
            final(self).entries == old(self).entries,
            final(self).mode == old(self).mode,
            r == Some(BrowserResult::WorkspaceCleared),
    {
        self.workspace = None;
        self.workspace_files = None;
        self.search_term = String::new();
        self.search_results = None;
        self.cursor = 0;
        Some(BrowserResult::WorkspaceCleared)
    }

    /// A search beneath the workspace is due and its files are not gathered
    /// yet: they are to be gathered (and handed over) before `update_search`.
    pub open spec fn needs_files(&self) -> bool {
        self.search_term@.len() > 0 && self.workspace is Some && self.workspace_files is None
    }

    pub fn wants_workspace_files(&self) -> (r: bool)
        ensures
            r == self.needs_files(),
    {
        !self.search_term.as_str().is_empty() && self.workspace.is_some() && self.workspace_files.is_none()
    }

    /// Keep the audio files gathered under the workspace for later searches.
    pub fn provide_workspace_files(&mut self, files: Vec<String>)
        ensures
            final(self).workspace_files == Some(files),
            final(self).cwd == old(self).cwd,
            final(self).entries == old(self).entries,
            final(self).cursor == old(self).cursor,
            final(self).workspace == old(self).workspace,
            final(self).search_term == old(self).search_term,
            final(self).search_results == old(self).search_results,
            final(self).mode == old(self).mode,
    {
        self.workspace_files = Some(files);
    }

    /// The results a search over this state's term shows: none for an empty
    /// term; under a workspace its files matched by their path below it;
    /// else the listing's entries matched by name.
    pub open spec fn search_outcome(&self, results: Option<Vec<String>>) -> bool {
        self.search_outcome_for(self.search_term@, results)
    }

    /// The results a search for `term` shows in this state.
    pub open spec fn search_outcome_for(&self, term: Seq<char>, results: Option<Vec<String>>) -> bool {
        if term.len() == 0 {
            results is None
        } else {
            match (self.workspace, self.workspace_files) {
                (Some(ws), Some(files)) => results matches Some(r) && ranked_as(
                    r@,
                    file_scores(files@, ws@, term),
                    files@,
                ),
                _ => results matches Some(r) && ranked_as(
                    r@,
                    entry_scores(self.entries@, term),
                    entry_paths(self.entries@),
                ),
            }
        }
    }

    /// Recompute the results from the current term, and put the cursor at
    /// the top.
    pub fn update_search(&mut self)
        requires
            !old(self).needs_files(),
        ensures
            final(self).cursor == 0,
            old(self).search_outcome(final(self).search_results),
            final(self).cwd == old(self).cwd,
            final(self).entries == old(self).entries,
            final(self).workspace == old(self).workspace,
            final(self).workspace_files == old(self).workspace_files,
            final(self).search_term == old(self).search_term,
            final(self).mode == old(self).mode,
    {
        self.cursor = 0;
        if self.search_term.as_str().is_empty() {
            self.search_results = None;
            return;
        }
        let results = match (&self.workspace, &self.workspace_files) {
            (Some(ws), Some(files)) => run_search(self.search_term.as_str(), files, ws.as_str()),
            _ => search_entries(self.search_term.as_str(), &self.entries),
        };
        self.search_results = Some(results);
    }
}


/// A directory entry as read from disk: its name, its path, and whether it
/// is a directory.
pub struct RawEntry {
    pub name: String,
    pub path: String,
    pub is_dir: bool,
}

/// What an entry is: a directory, an audio file by its extension, or other.
pub open spec fn listing_kind(e: RawEntry) -> EntryKind {
    if e.is_dir {
        EntryKind::Dir
    } else if is_audio_spec(e.path@) {
        EntryKind::Audio
    } else {
        EntryKind::Other
    }
}

pub open spec fn entry_of(e: RawEntry) -> BrowserEntry {
    BrowserEntry { name: e.name, path: e.path, kind: listing_kind(e) }
}

pub open spec fn of_kind(es: Seq<BrowserEntry>, k: EntryKind) -> Seq<BrowserEntry> {
    es.filter(|e: BrowserEntry| e.kind == k)
}

/// Directories first, then audio files, then the rest, each group keeping
/// its order.
pub open spec fn grouped(es: Seq<BrowserEntry>) -> Seq<BrowserEntry> {
    of_kind(es, EntryKind::Dir) + of_kind(es, EntryKind::Audio) + of_kind(es, EntryKind::Other)
}

/// The sort key of each entry: its name lowercased.
pub open spec fn name_keys(raw: Seq<RawEntry>) -> Seq<Seq<char>> {
    raw.map_values(|e: RawEntry| lowercase(e.name@))
}

/// `entries` is the listing of `dir` read as `raw`: ".." leading to the
/// parent when there is one, then the entries sorted by lowercased name
/// (ties in the order read) and grouped directories, audio, other.
pub open spec fn is_listing(dir: Seq<char>, raw: Seq<RawEntry>, entries: Seq<BrowserEntry>) -> bool {
    exists|order: Seq<int>|
        #[trigger] is_key_order(name_keys(raw), order) && {
            let body = grouped(order.map_values(|i: int| entry_of(raw[i])));
            match parent_spec(dir) {
                Some(p) => {
                    &&& entries.len() >= 1
                    &&& is_dotdot(entries[0].name@)
                    &&& entries[0].path@ == p
                    &&& entries[0].kind == EntryKind::Dir
                    &&& entries.skip(1) == body
                },
                None => entries == body,
            }
        }
}

fn copy_entry(e: &BrowserEntry) -> (r: BrowserEntry)
    ensures
        r == *e,
{
    BrowserEntry { name: e.name.clone(), path: e.path.clone(), kind: e.kind }
}

fn kind_of(e: &RawEntry) -> (r: EntryKind)
    ensures
        r == listing_kind(*e),
{
    if e.is_dir {
        EntryKind::Dir
    } else if is_audio(e.path.as_str()) {
        EntryKind::Audio
    } else {
        EntryKind::Other
    }
}

/// Append the entries of `src` of kind `k`, in order.
fn append_kind(out: &mut Vec<BrowserEntry>, src: &Vec<BrowserEntry>, k: EntryKind)
    ensures
        final(out)@ == old(out)@ + of_kind(src@, k),
{
    let mut i: usize = 0;
    while i < src.len()
        invariant
            i <= src@.len(),
            out@ == old(out)@ + of_kind(src@.take(i as int), k),
        decreases src.len() - i,
    {
        proof {
            reveal(Seq::filter);
            assert(src@.take(i + 1).drop_last() =~= src@.take(i as int));
            assert(src@.take(i + 1).last() == src@[i as int]);
        }
        if src[i].kind == k {
            out.push(copy_entry(&src[i]));
            assert(out@ =~= old(out)@ + of_kind(src@.take(i + 1), k));
        } else {
            assert(out@ =~= old(out)@ + of_kind(src@.take(i + 1), k));
        }
        i = i + 1;
    }
    assert(src@.take(src@.len() as int) =~= src@);
}

/// Outside `Move` the stops do not depend on the mode.
proof fn lemma_content_stops_outside_move(es: Seq<BrowserEntry>, lo: int, hi: int, m: BrowserMode)
    requires
        m != BrowserMode::Move,
    ensures
        first_content_stop_in(m, es, lo, hi) == first_content_stop_in(BrowserMode::Command, es, lo, hi),
    decreases hi - lo,
{
    if lo < hi {
        lemma_content_stops_outside_move(es, lo + 1, hi, m);
    }
}

impl BrowserState {
    /// The cursor a fresh listing starts on: the first selectable entry that
    /// is not "..", else the top.
    pub open spec fn start_cursor(&self) -> int {
        match self.first_content_stop(0, self.entries@.len() as int) {
            Some(i) => i,
            None => 0,
        }
    }

    /// The browser at `dir` over the entries read there, in `Command` mode.
    pub fn from_listing(dir: String, raw: Vec<RawEntry>, workspace: Option<String>) -> (r: Self)
        ensures
            r.cwd == dir,
            is_listing(dir@, raw@, r.entries@),
            r.cursor == r.start_cursor(),
            r.workspace == workspace,
            r.search_term@ == Seq::<char>::empty(),
            r.search_results is None,
            r.workspace_files is None,
            r.mode == BrowserMode::Command,
    {
        let mut entries: Vec<BrowserEntry> = Vec::new();
        let up = parent(dir.as_str());
        match up {
            Some(p) => {
                entries.push(BrowserEntry { name: string_of(&['.', '.']), path: p, kind: EntryKind::Dir });
            },
            None => {},
        }
        let ghost head = entries@;
        let mut keys: Vec<Vec<char>> = Vec::new();
        let mut k: usize = 0;
        while k < raw.len()
            invariant
                k <= raw@.len(),
                keys@.map_values(|v: Vec<char>| v@) == name_keys(raw@).take(k as int),
            decreases raw.len() - k,
        {
            let lowered = lowercase_of(raw[k].name.as_str());
            let key = chars_of(lowered.as_str());
            assert(key@ == name_keys(raw@)[k as int]);
            let ghost prev = keys@;
            keys.push(key);
            assert(keys@ == prev.push(key));
            assert(keys@.map_values(|v: Vec<char>| v@) =~= prev.map_values(|v: Vec<char>| v@).push(key@));
            assert(keys@.map_values(|v: Vec<char>| v@) =~= name_keys(raw@).take(k + 1));
            k = k + 1;
        }
        assert(keys@.map_values(|v: Vec<char>| v@) =~= name_keys(raw@));
        let order = sort_by_text(&keys);
        let ghost o = as_ints(order@);
        let mut listed: Vec<BrowserEntry> = Vec::new();
        let mut i: usize = 0;
        while i < order.len()
            invariant
                i <= order@.len(),
                o == as_ints(order@),
                is_key_order(name_keys(raw@), o),
                order@.len() == raw@.len(),
                listed@ == o.take(i as int).map_values(|j: int| entry_of(raw@[j])),
            decreases order.len() - i,
        {
            assert(0 <= o[i as int] < raw@.len());
            let e = &raw[order[i]];
            listed.push(BrowserEntry { name: e.name.clone(), path: e.path.clone(), kind: kind_of(e) });
            assert(o.take(i + 1) =~= o.take(i as int).push(o[i as int]));
            assert(listed@ =~= o.take(i + 1).map_values(|j: int| entry_of(raw@[j])));
            i = i + 1;
        }
        assert(o.take(o.len() as int) =~= o);
        append_kind(&mut entries, &listed, EntryKind::Dir);
        append_kind(&mut entries, &listed, EntryKind::Audio);
        append_kind(&mut entries, &listed, EntryKind::Other);
        proof {
            let body = grouped(o.map_values(|j: int| entry_of(raw@[j])));
            assert(entries@ =~= head + body);
            match parent_spec(dir@) {
                Some(p) => {
                    assert(entries@.skip(1) =~= body);
                },
                None => {
                    assert(head.len() == 0);
                    assert(entries@ =~= body);
                },
            }
            assert(is_key_order(name_keys(raw@), o));
        }
        let mut st = BrowserState {
            cwd: dir,
            entries,
            cursor: 0,
            workspace,
            search_term: String::new(),
            search_results: None,
            workspace_files: None,
            mode: BrowserMode::Command,
        };
        let c = match st.find_first_stop(0, true) {
            Some(i) => i,
            None => 0,
        };
        st.cursor = c;
        st
    }

    /// Rebuild the browser at `dir` over the entries read there, keeping the
    /// workspace and the mode; choosing a destination snaps to a folder.
    pub fn navigate_to(&mut self, dir: String, raw: Vec<RawEntry>)
        ensures
            final(self).cwd == dir,
            is_listing(dir@, raw@, final(self).entries@),
            final(self).workspace == old(self).workspace,
            final(self).mode == old(self).mode,
            final(self).search_term@ == Seq::<char>::empty(),
            final(self).search_results is None,
            final(self).workspace_files is None,
            final(self).cursor == if old(self).mode == BrowserMode::Move {
                final(self).landing()
            } else {
                final(self).start_cursor()
            },
    {
        let workspace = self.workspace.clone();
        let mode = self.mode;
        *self = BrowserState::from_listing(dir, raw, workspace);
        self.mode = mode;
        if matches!(mode, BrowserMode::Move) {
            self.snap_to_cursor_stop();
        } else {
            proof {
                lemma_content_stops_outside_move(self.entries@, 0, self.entries@.len() as int, mode);
            }
        }
    }
}


/// A key as the browser reads it.
#[derive(Debug, Clone, Copy, PartialEq, Eq, Structural)]
pub enum BrowserKey {
    Up,
    Down,
    Left,
    Enter,
    Backspace,
    Tab,
    Esc,
    Char(char),
    Other,
}

/// What a key asks of the browser.
#[derive(Debug, Clone, Copy, PartialEq, Eq, Structural)]
pub enum BrowserCommand {
    NavUp,
    NavDown,
    Open,
    GoUp,
    SearchMode,
    CommandMode,
    SetWorkspace,
    ClearWorkspace,
    Exit,
    ChooseHere,
    Type(char),
    Erase,
    Ignore,
}

/// What the caller does next, after the browser has taken a key.
pub enum BrowserAction {
    /// Nothing more.
    Stay,
    /// Leave the browser with this result.
    Finish(BrowserResult),
    /// Read this directory and `navigate_to` it.
    Navigate(String),
    /// Gather the audio files under the workspace, `provide_workspace_files`,
    /// then `update_search`.
    GatherFiles,
}

/// The meaning of each key in each mode. Letters are commands outside
/// `Search`; in `Search` they type into the filter.
pub open spec fn command_for(mode: BrowserMode, key: BrowserKey) -> BrowserCommand {
    match mode {
        BrowserMode::Command => match key {
            BrowserKey::Up | BrowserKey::Char('k') => BrowserCommand::NavUp,
            BrowserKey::Down | BrowserKey::Char('j') => BrowserCommand::NavDown,
            BrowserKey::Enter | BrowserKey::Char('l') => BrowserCommand::Open,
            BrowserKey::Backspace | BrowserKey::Left | BrowserKey::Char('h') => BrowserCommand::GoUp,
            BrowserKey::Tab | BrowserKey::Char('/') => BrowserCommand::SearchMode,
            BrowserKey::Char('@') => BrowserCommand::SetWorkspace,
            BrowserKey::Char('\'') => BrowserCommand::ClearWorkspace,
            BrowserKey::Esc => BrowserCommand::Exit,
            _ => BrowserCommand::Ignore,
        },
        BrowserMode::Search => match key {
            BrowserKey::Up => BrowserCommand::NavUp,
            BrowserKey::Down => BrowserCommand::NavDown,
            BrowserKey::Enter => BrowserCommand::Open,
            BrowserKey::Tab => BrowserCommand::CommandMode,
            BrowserKey::Esc => BrowserCommand::Exit,
            BrowserKey::Backspace => BrowserCommand::Erase,
            BrowserKey::Char(c) => BrowserCommand::Type(c),
            _ => BrowserCommand::Ignore,
        },
        BrowserMode::Move => match key {
            BrowserKey::Up | BrowserKey::Char('k') => BrowserCommand::NavUp,
            BrowserKey::Down | BrowserKey::Char('j') => BrowserCommand::NavDown,
            BrowserKey::Enter | BrowserKey::Char('l') => BrowserCommand::Open,
            BrowserKey::Backspace | BrowserKey::Left | BrowserKey::Char('h') => BrowserCommand::GoUp,
            BrowserKey::Char('y') => BrowserCommand::ChooseHere,
            BrowserKey::Esc => BrowserCommand::Exit,
            _ => BrowserCommand::Ignore,
        },
    }
}

pub fn command_of(mode: BrowserMode, key: BrowserKey) -> (r: BrowserCommand)
    ensures
        r == command_for(mode, key),
{
    match mode {
        BrowserMode::Command => match key {
            BrowserKey::Up | BrowserKey::Char('k') => BrowserCommand::NavUp,
            BrowserKey::Down | BrowserKey::Char('j') => BrowserCommand::NavDown,
            BrowserKey::Enter | BrowserKey::Char('l') => BrowserCommand::Open,
            BrowserKey::Backspace | BrowserKey::Left | BrowserKey::Char('h') => BrowserCommand::GoUp,
            BrowserKey::Tab | BrowserKey::Char('/') => BrowserCommand::SearchMode,
            BrowserKey::Char('@') => BrowserCommand::SetWorkspace,
            BrowserKey::Char('\'') => BrowserCommand::ClearWorkspace,
            BrowserKey::Esc => BrowserCommand::Exit,
            _ => BrowserCommand::Ignore,
        },
        BrowserMode::Search => match key {
            BrowserKey::Up => BrowserCommand::NavUp,
            BrowserKey::Down => BrowserCommand::NavDown,
            BrowserKey::Enter => BrowserCommand::Open,
            BrowserKey::Tab => BrowserCommand::CommandMode,
            BrowserKey::Esc => BrowserCommand::Exit,
            BrowserKey::Backspace => BrowserCommand::Erase,
            BrowserKey::Char(c) => BrowserCommand::Type(c),
            _ => BrowserCommand::Ignore,
        },
        BrowserMode::Move => match key {
            BrowserKey::Up | BrowserKey::Char('k') => BrowserCommand::NavUp,
            BrowserKey::Down | BrowserKey::Char('j') => BrowserCommand::NavDown,
            BrowserKey::Enter | BrowserKey::Char('l') => BrowserCommand::Open,
            BrowserKey::Backspace | BrowserKey::Left | BrowserKey::Char('h') => BrowserCommand::GoUp,
            BrowserKey::Char('y') => BrowserCommand::ChooseHere,
            BrowserKey::Esc => BrowserCommand::Exit,
            _ => BrowserCommand::Ignore,
        },
    }
}

/// The term with its last character removed, when it has one.
pub open spec fn erased(term: Seq<char>) -> Seq<char> {
    if term.len() == 0 {
        term
    } else {
        term.drop_last()
    }
}

impl BrowserState {
    /// What opening the highlighted line does: select the highlighted
    /// result, descend into a highlighted directory, or select a highlighted
    /// audio file.
    pub open spec fn open_outcome(&self, r: BrowserAction) -> bool {
        match self.search_results {
            Some(res) => if self.cursor < res@.len() {
                r == BrowserAction::Finish(BrowserResult::Selected(res@[self.cursor as int]))
            } else {
                r is Stay
            },
            None => if self.cursor < self.entries@.len() {
                let e = self.entries@[self.cursor as int];
                match e.kind {
                    EntryKind::Dir => r == BrowserAction::Navigate(e.path),
                    EntryKind::Audio => r == BrowserAction::Finish(BrowserResult::Selected(e.path)),
                    EntryKind::Other => r is Stay,
                }
            } else {
                r is Stay
            },
        }
    }

    /// Open the highlighted line.
    pub fn open_highlighted(&self) -> (r: BrowserAction)
        ensures
            self.open_outcome(r),
    {
        if let Some(results) = &self.search_results {
            if self.cursor < results.len() {
                return BrowserAction::Finish(BrowserResult::Selected(results[self.cursor].clone()));
            }
            return BrowserAction::Stay;
        }
        if self.cursor >= self.entries.len() {
            return BrowserAction::Stay;
        }
        let e = &self.entries[self.cursor];
        match e.kind {
            EntryKind::Dir => BrowserAction::Navigate(e.path.clone()),
            EntryKind::Audio => BrowserAction::Finish(BrowserResult::Selected(e.path.clone())),
            EntryKind::Other => BrowserAction::Stay,
        }
    }

    /// Ascend to the parent directory, when there is one.
    pub fn go_up(&self) -> (r: BrowserAction)
        ensures
            match parent_spec(self.cwd@) {
                Some(p) => r matches BrowserAction::Navigate(d) && d@ == p,
                None => r is Stay,
            },
    {
        match parent(self.cwd.as_str()) {
            Some(p) => BrowserAction::Navigate(p),
            None => BrowserAction::Stay,
        }
    }

    /// The state with the term replaced and the mode and everything else
    /// kept.
    pub open spec fn same_but_search(&self, post: &BrowserState) -> bool {
        &&& post.cwd == self.cwd
        &&& post.entries == self.entries
        &&& post.workspace == self.workspace
        &&& post.workspace_files == self.workspace_files
        &&& post.mode == self.mode
    }

    /// After the term became `term`: the results are searched afresh from the
    /// top, unless the workspace files are to be gathered first, in which
    /// case the caller is asked to.
    pub open spec fn retyped(&self, term: Seq<char>, post: &BrowserState, r: BrowserAction) -> bool {
        &&& self.same_but_search(post)
        &&& post.search_term@ == term
        &&& if term.len() > 0 && self.workspace is Some && self.workspace_files is None {
            &&& r is GatherFiles
            &&& post.cursor == self.cursor
            &&& post.search_results == self.search_results
        } else {
            &&& r is Stay
            &&& post.cursor == 0
            &&& self.search_outcome_for(term, post.search_results)
        }
    }

    /// Put the new term in place and search, unless files are still to be
    /// gathered.
    fn retype(&mut self, term: String) -> (r: BrowserAction)
        ensures
            old(self).retyped(term@, &*final(self), r),
    {
        self.search_term = term;
        if self.wants_workspace_files() {
            return BrowserAction::GatherFiles;
        }
        self.update_search();
        BrowserAction::Stay
    }

    /// The effect of `cmd`: `post` is the browser afterwards and `r` what the
    /// caller does next.
    pub open spec fn applied(&self, cmd: BrowserCommand, post: &BrowserState, r: BrowserAction) -> bool {
        match cmd {
            BrowserCommand::NavUp => *post == self.at_cursor(post.cursor) && post.cursor
                == self.nav_above() && r is Stay,
            BrowserCommand::NavDown => *post == self.at_cursor(post.cursor) && post.cursor
                == self.nav_below() && r is Stay,
            BrowserCommand::Open => *post == *self && self.open_outcome(r),
            BrowserCommand::GoUp => *post == *self && match parent_spec(self.cwd@) {
                Some(p) => r matches BrowserAction::Navigate(d) && d@ == p,
                None => r is Stay,
            },
            BrowserCommand::SearchMode => post.mode == BrowserMode::Search && *post == (BrowserState {
                mode: BrowserMode::Search,
                ..*self
            }) && r is Stay,
            BrowserCommand::CommandMode => *post == (BrowserState {
                mode: BrowserMode::Command,
                ..*self
            }) && r is Stay,
            BrowserCommand::SetWorkspace => *post == (BrowserState {
                workspace: Some(self.cwd),
                workspace_files: None,
                ..*self
            }) && r == BrowserAction::Finish(BrowserResult::WorkspaceSet(self.cwd)),
            BrowserCommand::ClearWorkspace => {
                &&& post.workspace is None
                &&& post.workspace_files is None
                &&& post.search_term@ == Seq::<char>::empty()
                &&& post.search_results is None
                &&& post.cursor == 0
                &&& post.cwd == self.cwd
                &&& post.entries == self.entries
                &&& post.mode == self.mode
                &&& r == BrowserAction::Finish(BrowserResult::WorkspaceCleared)
            },
            BrowserCommand::Exit => *post == *self && r == BrowserAction::Finish(
                BrowserResult::ReturnToPlayer,
            ),
            BrowserCommand::ChooseHere => *post == *self && r == BrowserAction::Finish(
                BrowserResult::DirectoryChosen(self.cwd),
            ),
            BrowserCommand::Type(c) => self.retyped(self.search_term@.push(c), post, r),
            BrowserCommand::Erase => self.retyped(erased(self.search_term@), post, r),
            BrowserCommand::Ignore => *post == *self && r is Stay,
        }
    }

    /// Carry out `cmd`.
    pub fn apply(&mut self, cmd: BrowserCommand) -> (r: BrowserAction)
        requires
            old(self).cursor_in_listing(),
        ensures
            old(self).applied(cmd, &*final(self), r),
    {
        match cmd {
            BrowserCommand::NavUp => {
                self.nav_up();
                BrowserAction::Stay
            },
            BrowserCommand::NavDown => {
                self.nav_down();
                BrowserAction::Stay
            },
            BrowserCommand::Open => self.open_highlighted(),
            BrowserCommand::GoUp => self.go_up(),
            BrowserCommand::SearchMode => {
                self.mode = BrowserMode::Search;
                BrowserAction::Stay
            },
            BrowserCommand::CommandMode => {
                self.mode = BrowserMode::Command;
                BrowserAction::Stay
            },
            BrowserCommand::SetWorkspace => {
                self.workspace = Some(self.cwd.clone());
                self.workspace_files = None;
                BrowserAction::Finish(BrowserResult::WorkspaceSet(self.cwd.clone()))
            },
            BrowserCommand::ClearWorkspace => {
                self.clear_workspace();
                BrowserAction::Finish(BrowserResult::WorkspaceCleared)
            },
            BrowserCommand::Exit => BrowserAction::Finish(BrowserResult::ReturnToPlayer),
            BrowserCommand::ChooseHere => BrowserAction::Finish(
                BrowserResult::DirectoryChosen(self.cwd.clone()),
            ),
            BrowserCommand::Type(c) => {
                let mut v = chars_of(self.search_term.as_str());
                v.push(c);
                let term = string_of(&v);
                self.retype(term)
            },
            BrowserCommand::Erase => {
                let v = chars_of(self.search_term.as_str());
                let term = if v.len() == 0 {
                    string_of(&v)
                } else {
                    let t = crate::text::string_of_range(&v, 0, v.len() - 1);
                    assert(v@.subrange(0, v@.len() - 1) =~= v@.drop_last());
                    t
                };
                self.retype(term)
            },
            BrowserCommand::Ignore => BrowserAction::Stay,
        }
    }

    /// Take a key in the current mode.
    pub fn handle_key(&mut self, key: BrowserKey) -> (r: BrowserAction)
        requires
            old(self).cursor_in_listing(),
        ensures
            old(self).applied(command_for(old(self).mode, key), &*final(self), r),
    {
        let cmd = command_of(self.mode, key);
        self.apply(cmd)
    }
}

} // verus!

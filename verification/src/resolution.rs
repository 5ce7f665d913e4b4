//! Locating an entry's file: first the file its hint points at, then each
//! library file that screening admitted, in library order, each confirmed by
//! its content hash; when none confirms, the files near the entry's duration
//! are offered for ranking by description. An entry made by a hash method
//! this build cannot reproduce goes straight to that fallback, without a
//! read. A located file's tags are read once more, so a changed description
//! is carried back. Reading files and tags is the caller's work: these
//! functions say what to read next, and what the answers mean.

use crate::identity::PAYLOAD_EXTRACTION_VERSION;
use crate::paths::{join, join_spec, relative_to, relative_to_spec};
use crate::playlist::{changed_description, Description, Hints};
use crate::text::{chars_eq, chars_of};
use vstd::prelude::*;

verus! {

/// A library file that screening kept: its path, its size, whether its
/// duration and size lie within the entry's tolerances (`admissible`), and
/// whether its duration alone does (`near`, which the fallback offers).
pub struct Screened {
    pub path: String,
    pub size: u64,
    pub admissible: bool,
    pub near: bool,
}

/// The file the last request asked about: the hinted one, or library file
/// `k`.
#[derive(Debug, Clone, Copy, PartialEq, Eq, Structural)]
pub enum ResolveStage {
    Hint,
    Search(usize),
}

/// What to do next.
pub enum ResolveAction {
    /// Read the file at this path and report whether its content confirms
    /// the entry.
    Confirm(String),
    /// The entry's file is at this path: read its tags and settle with
    /// `located`.
    ReadTags(String),
    /// No file confirms the entry: these library files (by position, in
    /// library order) are near its duration, to be ranked by description.
    Rank(Vec<usize>),
    /// No file confirms the entry and none is near its duration.
    Unavailable,
}

/// Where a located entry's file is, and what of the entry to rewrite: its
/// hints when the file was found away from them, its description when the
/// file's tags have changed.
pub struct Located {
    pub path: String,
    pub new_hints: Option<Hints>,
    pub new_description: Option<Description>,
}

/// A step of resolution by position: ask about library file `k`, found at
/// the hint or at library file `k`, or fall back.
#[derive(Debug, Clone, Copy, PartialEq, Eq, Structural)]
pub enum Verdict {
    Ask(usize),
    FoundHint,
    FoundFile(usize),
    Fallback,
}

/// This build reproduces the entry's hash: BLAKE3 over the current payload
/// extraction.
pub open spec fn reproducible(algorithm: Seq<char>, extraction_version: u32) -> bool {
    algorithm == seq!['b', 'l', 'a', 'k', 'e', '3'] && extraction_version
        == PAYLOAD_EXTRACTION_VERSION
}

/// The positions of the library files near the entry's duration, in order.
pub open spec fn near_files(files: Seq<Screened>) -> Seq<usize>
    decreases files.len(),
{
    if files.len() == 0 {
        Seq::empty()
    } else if files.last().near {
        near_files(files.drop_last()).push((files.len() - 1) as usize)
    } else {
        near_files(files.drop_last())
    }
}

/// The fallback: ranking the near files, or nothing to offer.
pub open spec fn fallback_is(r: ResolveAction, files: Seq<Screened>) -> bool {
    if near_files(files).len() == 0 {
        r is Unavailable
    } else {
        r matches ResolveAction::Rank(v) && v@ == near_files(files)
    }
}

/// The first admissible library file at or after `from`.
pub open spec fn first_admissible(files: Seq<Screened>, from: int) -> Option<int>
    decreases files.len() - from,
{
    if from < 0 || from >= files.len() {
        None
    } else if files[from].admissible {
        Some(from)
    } else {
        first_admissible(files, from + 1)
    }
}

/// The first admissible library file at or after `from` that confirms.
pub open spec fn first_confirmed(files: Seq<Screened>, ok: Seq<bool>, from: int) -> Option<int>
    decreases files.len() - from,
{
    if from < 0 || from >= files.len() {
        None
    } else if files[from].admissible && ok[from] {
        Some(from)
    } else {
        first_confirmed(files, ok, from + 1)
    }
}

/// Where the search goes on after a file at `stage` did not confirm.
pub open spec fn search_from(stage: ResolveStage) -> int {
    match stage {
        ResolveStage::Hint => 0,
        ResolveStage::Search(k) => k + 1,
    }
}

/// The step after the file at `stage` confirmed the entry or not.
pub open spec fn step_spec(stage: ResolveStage, confirmed: bool, files: Seq<Screened>) -> Verdict {
    if confirmed {
        match stage {
            ResolveStage::Hint => Verdict::FoundHint,
            ResolveStage::Search(k) => Verdict::FoundFile(k),
        }
    } else {
        match first_admissible(files, search_from(stage)) {
            Some(j) => Verdict::Ask(j as usize),
            None => Verdict::Fallback,
        }
    }
}

proof fn lemma_first_admissible(files: Seq<Screened>, from: int)
    requires
        from >= 0,
    ensures
        match first_admissible(files, from) {
            Some(j) => 0 <= from <= j < files.len() && files[j].admissible && forall|i: int|
                from <= i < j ==> !(#[trigger] files[i]).admissible,
            None => forall|i: int| from <= i < files.len() ==> !(#[trigger] files[i]).admissible,
        },
    decreases files.len() - from,
{
    if 0 <= from < files.len() && !files[from].admissible {
        lemma_first_admissible(files, from + 1);
    }
}

/// Whether the entry's hash method is this build's.
pub fn method_reproducible(algorithm: &str, extraction_version: u32) -> (r: bool)
    ensures
        r == reproducible(algorithm@, extraction_version),
{
    let alg = chars_of(algorithm);
    chars_eq(&alg, &['b', 'l', 'a', 'k', 'e', '3']) && extraction_version
        == PAYLOAD_EXTRACTION_VERSION
}

/// The fallback action over the screened library.
fn fallback(files: &Vec<Screened>) -> (r: ResolveAction)
    ensures
        fallback_is(r, files@),
{
    let mut near: Vec<usize> = Vec::new();
    let mut k: usize = 0;
    while k < files.len()
        invariant
            k <= files@.len(),
            near@ == near_files(files@.take(k as int)),
        decreases files@.len() - k,
    {
        proof {
            assert(files@.take(k + 1).drop_last() =~= files@.take(k as int));
            assert(files@.take(k + 1).last() == files@[k as int]);
        }
        if files[k].near {
            near.push(k);
        }
        k = k + 1;
    }
    proof {
        assert(files@.take(files@.len() as int) =~= files@);
    }
    if near.len() == 0 {
        ResolveAction::Unavailable
    } else {
        ResolveAction::Rank(near)
    }
}

/// The first request: the file the hint points at, from the playlist's
/// directory, when the entry's hash method is this build's; otherwise,
/// without any read, the fallback.
pub fn first_request(
    dir: &str,
    hints: &Hints,
    algorithm: &str,
    extraction_version: u32,
    files: &Vec<Screened>,
) -> (r: (ResolveStage, ResolveAction))
    ensures
        r.0 == ResolveStage::Hint,
        reproducible(algorithm@, extraction_version) ==> (r.1 matches ResolveAction::Confirm(p)
            && p@ == join_spec(dir@, hints.relative_path@)),
        !reproducible(algorithm@, extraction_version) ==> fallback_is(r.1, files@),
{
    if method_reproducible(algorithm, extraction_version) {
        (ResolveStage::Hint, ResolveAction::Confirm(join(dir, hints.relative_path.as_str())))
    } else {
        (ResolveStage::Hint, fallback(files))
    }
}

/// The request after the file at `stage` confirmed the entry (`confirmed`)
/// or not: a confirming file's tags are read next; otherwise the next
/// admissible library file is read, and after the last, the fallback.
pub fn next_request(
    stage: ResolveStage,
    confirmed: bool,
    dir: &str,
    hints: &Hints,
    files: &Vec<Screened>,
) -> (r: (ResolveStage, ResolveAction))
    requires
        stage matches ResolveStage::Search(k) ==> k < files@.len(),
    ensures
        match step_spec(stage, confirmed, files@) {
            Verdict::Ask(j) => r.0 == ResolveStage::Search(j) && (r.1 matches ResolveAction::Confirm(
                p,
            ) && p@ == files@[j as int].path@),
            Verdict::FoundHint => r.0 == stage && (r.1 matches ResolveAction::ReadTags(p) && p@
                == join_spec(dir@, hints.relative_path@)),
            Verdict::FoundFile(k) => r.0 == stage && (r.1 matches ResolveAction::ReadTags(p) && p@
                == files@[k as int].path@),
            Verdict::Fallback => fallback_is(r.1, files@),
        },
{
    if confirmed {
        match stage {
            ResolveStage::Hint => {
                return (stage, ResolveAction::ReadTags(join(dir, hints.relative_path.as_str())));
            },
            ResolveStage::Search(k) => {
                return (stage, ResolveAction::ReadTags(copy_text(&files[k].path)));
            },
        }
    }
    let n = files.len();
    let mut j: usize = match stage {
        ResolveStage::Hint => 0,
        ResolveStage::Search(k) => k + 1,
    };
    proof {
        lemma_first_admissible(files@, search_from(stage));
    }
    while j < files.len()
        invariant
            !confirmed,
            n == files@.len(),
            search_from(stage) <= j <= files@.len(),
            forall|i: int| search_from(stage) <= i < j ==> !(#[trigger] files@[i]).admissible,
            first_admissible(files@, search_from(stage)) == first_admissible(files@, j as int),
        decreases files@.len() - j,
    {
        if files[j].admissible {
            assert(first_admissible(files@, j as int) == Some(j as int));
            return (ResolveStage::Search(j), ResolveAction::Confirm(copy_text(&files[j].path)));
        }
        j = j + 1;
    }
    (stage, fallback(files))
}

/// Settle a located entry once its file's tags were read (`read`, none
/// when unreadable): found at the hint, the hints stand; found in the
/// library, they point at the file from `dir` with its size; and the
/// description is rewritten when the tags differ from `current`.
pub fn located(
    stage: ResolveStage,
    dir: &str,
    hints: &Hints,
    files: &Vec<Screened>,
    current: &Description,
    read: Option<Description>,
) -> (r: Located)
    requires
        stage matches ResolveStage::Search(k) ==> k < files@.len(),
    ensures
        match stage {
            ResolveStage::Hint => r.path@ == join_spec(dir@, hints.relative_path@) && r.new_hints
                is None,
            ResolveStage::Search(k) => r.path@ == files@[k as int].path@ && (r.new_hints matches Some(
                h,
            ) && h.relative_path@ == relative_to_spec(dir@, files@[k as int].path@)
                && h.file_size_bytes == files@[k as int].size),
        },
        match read {
            Some(d) => if d.fields() != current.fields() {
                r.new_description == Some(d)
            } else {
                r.new_description is None
            },
            None => r.new_description is None,
        },
{
    let new_description = changed_description(current, read);
    match stage {
        ResolveStage::Hint => Located {
            path: join(dir, hints.relative_path.as_str()),
            new_hints: None,
            new_description,
        },
        ResolveStage::Search(k) => {
            let f = &files[k];
            let rel = relative_to(dir, f.path.as_str());
            Located {
                path: copy_text(&f.path),
                new_hints: Some(Hints { relative_path: rel, file_size_bytes: f.size }),
                new_description,
            }
        },
    }
}

/// Whether the file at `stage` confirms the entry, when the hinted file
/// answers `hint_ok` and library file `k` answers `ok[k]`.
pub open spec fn answer(stage: ResolveStage, hint_ok: bool, ok: Seq<bool>) -> bool {
    match stage {
        ResolveStage::Hint => hint_ok,
        ResolveStage::Search(k) => ok[k as int],
    }
}

/// Where the requests from `stage` lead, within `fuel` further requests,
/// when every file answers as `hint_ok` and `ok` say.
pub open spec fn run(
    stage: ResolveStage,
    hint_ok: bool,
    ok: Seq<bool>,
    files: Seq<Screened>,
    fuel: nat,
) -> Verdict
    decreases fuel,
{
    match step_spec(stage, answer(stage, hint_ok, ok), files) {
        Verdict::Ask(j) => if fuel == 0 {
            Verdict::Ask(j)
        } else {
            run(ResolveStage::Search(j), hint_ok, ok, files, (fuel - 1) as nat)
        },
        v => v,
    }
}

/// The file resolution settles on: none when the entry's hash method is
/// not this build's; else the hinted one when it confirms, else the first
/// admissible library file that confirms, else none.
pub open spec fn resolution_of(
    method_ok: bool,
    hint_ok: bool,
    ok: Seq<bool>,
    files: Seq<Screened>,
) -> Verdict {
    if !method_ok {
        Verdict::Fallback
    } else if hint_ok {
        Verdict::FoundHint
    } else {
        match first_confirmed(files, ok, 0) {
            Some(k) => Verdict::FoundFile(k as usize),
            None => Verdict::Fallback,
        }
    }
}

proof fn lemma_skip_inadmissible(files: Seq<Screened>, ok: Seq<bool>, from: int)
    requires
        from >= 0,
    ensures
        match first_admissible(files, from) {
            Some(a) => first_confirmed(files, ok, from) == first_confirmed(files, ok, a),
            None => first_confirmed(files, ok, from) is None,
        },
    decreases files.len() - from,
{
    if from < files.len() && !files[from].admissible {
        lemma_skip_inadmissible(files, ok, from + 1);
    }
}

proof fn lemma_run_from_file(files: Seq<Screened>, hint_ok: bool, ok: Seq<bool>, j: int, fuel: nat)
    requires
        ok.len() == files.len(),
        files.len() <= usize::MAX,
        0 <= j < files.len(),
        files[j].admissible,
        fuel + j + 1 >= files.len(),
    ensures
        run(ResolveStage::Search(j as usize), hint_ok, ok, files, fuel) == match first_confirmed(
            files,
            ok,
            j,
        ) {
            Some(k) => Verdict::FoundFile(k as usize),
            None => Verdict::Fallback,
        },
    decreases fuel,
{
    if !ok[j] {
        lemma_first_admissible(files, j + 1);
        lemma_skip_inadmissible(files, ok, j + 1);
        match first_admissible(files, j + 1) {
            Some(a) => {
                lemma_run_from_file(files, hint_ok, ok, a, (fuel - 1) as nat);
            },
            None => {},
        }
    }
}

/// Where resolution leads from its first request: straight to the
/// fallback when the method is not this build's, else as the requests run.
pub open spec fn run_all(
    method_ok: bool,
    hint_ok: bool,
    ok: Seq<bool>,
    files: Seq<Screened>,
) -> Verdict {
    if !method_ok {
        Verdict::Fallback
    } else {
        run(ResolveStage::Hint, hint_ok, ok, files, files.len())
    }
}

/// Resolution reads nothing for an entry whose hash method this build
/// cannot reproduce; otherwise it reads the hinted file first, then only
/// admissible library files, each at most once and in library order, and
/// settles on the hinted file when it confirms, else on the first
/// admissible library file that confirms, else falls back to ranking by
/// description.
pub proof fn lemma_resolution_finds_first_confirmed(
    files: Seq<Screened>,
    method_ok: bool,
    hint_ok: bool,
    ok: Seq<bool>,
)
    requires
        ok.len() == files.len(),
        files.len() <= usize::MAX,
    ensures
        run_all(method_ok, hint_ok, ok, files) == resolution_of(method_ok, hint_ok, ok, files),
{
    if method_ok && !hint_ok {
        lemma_first_admissible(files, 0);
        lemma_skip_inadmissible(files, ok, 0);
        match first_admissible(files, 0) {
            Some(a) => {
                lemma_run_from_file(files, hint_ok, ok, a, (files.len() - 1) as nat);
            },
            None => {},
        }
    }
}

fn copy_text(s: &String) -> (r: String)
    ensures
        r@ == s@,
{
    crate::text::string_of(&crate::text::chars_of(s.as_str()))
}

} // verus!

//! The playlist format's pure parts: the descriptive fields and hints an
//! entry carries, hash confirmation of a file against an entry, backup file
//! names, and the token comparison behind the descriptive fallback.

use crate::browser::lowercase;
use crate::identity::{
    blake3_hex, content_hash, hashable, identity_payload, payload_defined, IdentityError,
};
use crate::paths::{
    file_name, file_name_spec, join, join_spec, parent, parent_spec, relative_to, relative_to_spec,
};
use crate::ranking::text_lt;
use crate::text::{chars_eq, chars_of, push_decimal, string_of};
use vstd::prelude::*;

verus! {

broadcast use vstd::seq_lib::group_seq_properties;

/// What a track says about itself in its tags.
pub struct Description {
    pub artist: String,
    pub title: String,
    pub album: String,
    pub year: String,
}

/// Where an entry's file was last found, relative to the playlist, and its
/// size then.
pub struct Hints {
    pub relative_path: String,
    pub file_size_bytes: u64,
}

impl Default for Description {
    fn default() -> (r: Self)
        ensures
            r.artist@ == Seq::<char>::empty(),
            r.title@ == Seq::<char>::empty(),
            r.album@ == Seq::<char>::empty(),
            r.year@ == Seq::<char>::empty(),
    {
        Description {
            artist: String::new(),
            title: String::new(),
            album: String::new(),
            year: String::new(),
        }
    }
}

impl Description {
    /// The four fields as text.
    pub open spec fn fields(&self) -> (Seq<char>, Seq<char>, Seq<char>, Seq<char>) {
        (self.artist@, self.title@, self.album@, self.year@)
    }

    pub fn same_as(&self, other: &Description) -> (r: bool)
        ensures
            r == (self.fields() == other.fields()),
    {
        self.artist == other.artist && self.title == other.title && self.album == other.album
            && self.year == other.year
    }
}

/// The description to store after reading a located file's tags: the tags
/// read, when they were readable and differ from what the entry holds.
pub fn changed_description(current: &Description, read: Option<Description>) -> (r: Option<
    Description,
>)
    ensures
        match read {
            Some(d) => if d.fields() != current.fields() {
                r == Some(d)
            } else {
                r is None
            },
            None => r is None,
        },
{
    match read {
        Some(d) => {
            if d.same_as(current) {
                None
            } else {
                Some(d)
            }
        },
        None => None,
    }
}

/// An entry's stored hash confirms a file's bytes: the entry was made by the
/// method this build reproduces, the file's payload can be found, and its
/// hash is the stored one.
pub open spec fn confirms(
    algorithm: Seq<char>,
    extraction_version: u32,
    stored_hash: Seq<char>,
    bytes: Seq<u8>,
) -> bool {
    &&& algorithm == seq!['b', 'l', 'a', 'k', 'e', '3']
    &&& extraction_version == crate::identity::PAYLOAD_EXTRACTION_VERSION
    &&& match identity_payload(bytes) {
        Ok(p) => blake3_hex(p) == stored_hash,
        Err(_) => false,
    }
}

/// Whether the file whose bytes were read (if any could be) is the entry's
/// file, by its content hash.
pub fn hash_confirms(
    algorithm: &str,
    extraction_version: u32,
    stored_hash: &str,
    bytes: Option<&[u8]>,
) -> (r: bool)
    requires
        bytes matches Some(b) ==> payload_defined(b@),
    ensures
        r == match bytes {
            Some(b) => confirms(algorithm@, extraction_version, stored_hash@, b@),
            None => false,
        },
{
    let alg = chars_of(algorithm);
    if !chars_eq(&alg, &['b', 'l', 'a', 'k', 'e', '3']) || extraction_version
        != crate::identity::PAYLOAD_EXTRACTION_VERSION {
        return false;
    }
    let b = match bytes {
        Some(b) => b,
        None => return false,
    };
    match content_hash(b) {
        Ok(h) => {
            let hv = chars_of(h.as_str());
            let sv = chars_of(stored_hash);
            chars_eq(&hv, &sv)
        },
        Err(_) => false,
    }
}

/// What an entry records of its file, apart from the duration: the hash
/// method and hash, the file's tags, and where it lies relative to the
/// playlist with its size.
pub struct EntryParts {
    pub hash_algorithm: String,
    pub payload_extraction_version: u32,
    pub content_hash: String,
    pub description: Description,
    pub hints: Hints,
}

/// The parts of a fresh entry for the track at `path` (its `bytes`, its
/// size and its tags), stamped with the current hashing method, its hint
/// relative to `playlist_dir`; the identity error when the file cannot be
/// hashed. Adopting a confirmed candidate writes the same parts over an
/// entry.
pub fn entry_from_track(
    path: &str,
    playlist_dir: &str,
    bytes: &[u8],
    file_size_bytes: u64,
    description: Description,
) -> (r: Result<EntryParts, IdentityError>)
    requires
        payload_defined(bytes@),
    ensures
        match identity_payload(bytes@) {
            Ok(p) => r matches Ok(e) && e.hash_algorithm@ == seq!['b', 'l', 'a', 'k', 'e', '3']
                && e.payload_extraction_version == crate::identity::PAYLOAD_EXTRACTION_VERSION
                && e.content_hash@ == blake3_hex(p) && e.description == description
                && e.hints.relative_path@ == relative_to_spec(playlist_dir@, path@)
                && e.hints.file_size_bytes == file_size_bytes,
            Err(err) => r == Err::<EntryParts, IdentityError>(err),
        },
{
    let hash = match content_hash(bytes) {
        Ok(h) => h,
        Err(e) => return Err(e),
    };
    Ok(EntryParts {
        hash_algorithm: string_of(&['b', 'l', 'a', 'k', 'e', '3']),
        payload_extraction_version: crate::identity::PAYLOAD_EXTRACTION_VERSION,
        content_hash: hash,
        description,
        hints: Hints {
            relative_path: relative_to(playlist_dir, path),
            file_size_bytes,
        },
    })
}

/// Whether `hash_confirms` may look at these bytes.
pub fn can_confirm(bytes: &[u8]) -> (r: bool)
    ensures
        r == payload_defined(bytes@),
{
    hashable(bytes)
}

/// `path` with its file name replaced by `name` (`Path::with_file_name`).
pub open spec fn with_file_name_spec(path: Seq<char>, name: Seq<char>) -> Seq<char> {
    match file_name_spec(path) {
        Some(_) => match parent_spec(path) {
            Some(dir) => join_spec(dir, name),
            None => join_spec(path, name),
        },
        None => join_spec(path, name),
    }
}

/// The hidden sibling backup of `path` in `slot`: `.<name>.bak<slot>` beside
/// it.
pub open spec fn backup_path_spec(path: Seq<char>, slot: u8) -> Seq<char> {
    let name = match file_name_spec(path) {
        Some(n) => n,
        None => Seq::empty(),
    };
    with_file_name_spec(
        path,
        seq!['.'] + name + seq!['.', 'b', 'a', 'k'] + crate::text::decimal(slot as nat),
    )
}

pub fn backup_path(path: &str, slot: u8) -> (r: String)
    ensures
        r@ == backup_path_spec(path@, slot),
{
    let name = match file_name(path) {
        Some(n) => chars_of(n.as_str()),
        None => Vec::new(),
    };
    let mut text: Vec<char> = vec!['.'];
    crate::text::push_chars(&mut text, &name);
    crate::text::push_chars(&mut text, &['.', 'b', 'a', 'k']);
    push_decimal(&mut text, slot as u64);
    let ghost want = seq!['.'] + name@ + seq!['.', 'b', 'a', 'k'] + crate::text::decimal(slot as nat);
    assert(text@ =~= want);
    let new_name = string_of(&text);
    match file_name(path) {
        Some(_) => match parent(path) {
            Some(dir) => join(dir.as_str(), new_name.as_str()),
            None => join(path, new_name.as_str()),
        },
        None => join(path, new_name.as_str()),
    }
}

/// Common accented letters folded to their ASCII base.
pub open spec fn fold_accent_spec(c: char) -> char {
    match c {
        'á' | 'à' | 'â' | 'ä' | 'ã' | 'å' => 'a',
        'é' | 'è' | 'ê' | 'ë' => 'e',
        'í' | 'ì' | 'î' | 'ï' => 'i',
        'ó' | 'ò' | 'ô' | 'ö' | 'õ' | 'ø' => 'o',
        'ú' | 'ù' | 'û' | 'ü' => 'u',
        'ñ' => 'n',
        'ç' => 'c',
        'ý' | 'ÿ' => 'y',
        other => other,
    }
}

/// Common accented forms to their ASCII base, so `Beyoncé` and `Beyonce`
/// compare equal.
pub fn fold_accent(c: char) -> (r: char)
    ensures
        r == fold_accent_spec(c),
{
    match c {
        'á' | 'à' | 'â' | 'ä' | 'ã' | 'å' => 'a',
        'é' | 'è' | 'ê' | 'ë' => 'e',
        'í' | 'ì' | 'î' | 'ï' => 'i',
        'ó' | 'ò' | 'ô' | 'ö' | 'õ' | 'ø' => 'o',
        'ú' | 'ù' | 'û' | 'ü' => 'u',
        'ñ' => 'n',
        'ç' => 'c',
        'ý' | 'ÿ' => 'y',
        other => other,
    }
}

/// Whether `c` is alphabetic or numeric in Unicode's sense, as
/// `char::is_alphanumeric` decides.
pub uninterp spec fn alphanumeric(c: char) -> bool;

/// `char::is_alphanumeric`. Claimed: the result is `alphanumeric` of the
/// character.
#[verifier::external_body]
fn is_alphanumeric(c: char) -> (r: bool)
    ensures
        r == alphanumeric(c),
{
    c.is_alphanumeric()
}

/// The position of the first character in `s` that is not alphanumeric.
pub open spec fn first_separator(s: Seq<char>) -> Option<int>
    decreases s.len(),
{
    if s.len() == 0 {
        None
    } else if !alphanumeric(s[0]) {
        Some(0)
    } else {
        match first_separator(s.drop_first()) {
            Some(i) => Some(i + 1),
            None => None,
        }
    }
}

pub proof fn lemma_first_separator(s: Seq<char>)
    ensures
        match first_separator(s) {
            Some(i) => 0 <= i < s.len() && !alphanumeric(s[i]) && forall|j: int|
                0 <= j < i ==> alphanumeric(#[trigger] s[j]),
            None => forall|j: int| 0 <= j < s.len() ==> alphanumeric(#[trigger] s[j]),
        },
    decreases s.len(),
{
    if s.len() > 0 {
        lemma_first_separator(s.drop_first());
        if alphanumeric(s[0]) {
            assert forall|j: int| 1 <= j < s.len() implies s.drop_first()[j - 1] == s[j] by {}
        }
    }
}

/// The maximal runs of alphanumeric characters in `s`, in order (`s` split on
/// anything else, empty pieces dropped).
pub open spec fn words(s: Seq<char>) -> Seq<Seq<char>>
    decreases s.len(),
{
    match first_separator(s) {
        None => if s.len() == 0 {
            Seq::empty()
        } else {
            seq![s]
        },
        Some(i) => {
            proof {
                lemma_first_separator(s);
            }
            let rest = words(s.skip(i + 1));
            if i == 0 {
                rest
            } else {
                seq![s.take(i)] + rest
            }
        },
    }
}

/// The words of a field for comparison: lowercased, accent-folded, split on
/// anything non-alphanumeric, a leading "the" dropped.
pub open spec fn comparison_words(field: Seq<char>) -> Seq<Seq<char>> {
    let w = words(lowercase(field).map_values(|c: char| fold_accent_spec(c)));
    if w.len() > 0 && w[0] == seq!['t', 'h', 'e'] {
        w.drop_first()
    } else {
        w
    }
}

/// The words of `v[from..]`, appended to `out`.
fn split_words(v: &Vec<char>, from: usize, out: &mut Vec<Vec<char>>)
    requires
        from <= v@.len(),
    ensures
        final(out)@.map_values(|w: Vec<char>| w@) == old(out)@.map_values(|w: Vec<char>| w@) + words(
            v@.skip(from as int),
        ),
    decreases v@.len() - from,
{
    let ghost s = v@.skip(from as int);
    proof {
        lemma_first_separator(s);
    }
    let mut i = from;
    while i < v.len() && is_alphanumeric(v[i])
        invariant
            from <= i <= v@.len(),
            s == v@.skip(from as int),
            forall|j: int| 0 <= j < i - from ==> alphanumeric(#[trigger] s[j]),
        decreases v.len() - i,
    {
        i = i + 1;
    }
    let mut word: Vec<char> = Vec::new();
    let mut k = from;
    while k < i
        invariant
            from <= k <= i <= v@.len(),
            word@ == v@.subrange(from as int, k as int),
        decreases i - k,
    {
        word.push(v[k]);
        assert(word@ =~= v@.subrange(from as int, k + 1));
        k = k + 1;
    }
    assert(word@ =~= s.take(i - from));
    let ghost before = out@.map_values(|w: Vec<char>| w@);
    if i == v.len() {
        assert(first_separator(s) is None);
        if i > from {
            out.push(word);
            assert(s.take(i - from) =~= s);
        } else {
            assert(s.len() == 0);
        }
        assert(out@.map_values(|w: Vec<char>| w@) =~= before + words(s));
    } else {
        assert(first_separator(s) == Some(i - from));
        if i > from {
            out.push(word);
        }
        let ghost mid = out@.map_values(|w: Vec<char>| w@);
        split_words(v, i + 1, out);
        assert(v@.skip(i + 1) =~= s.skip(i - from + 1));
        assert(out@.map_values(|w: Vec<char>| w@) =~= before + words(s));
    }
}

/// The distinct members of `ws`, sorted as text.
pub open spec fn sorted_set(r: Seq<Seq<char>>, ws: Seq<Seq<char>>) -> bool {
    &&& r.to_set() == ws.to_set()
    &&& forall|i: int, j: int| 0 <= i < j < r.len() ==> text_lt(#[trigger] r[i], #[trigger] r[j])
}

/// Put `w` into the sorted, duplicate-free `out`.
fn insert_sorted(out: &mut Vec<Vec<char>>, w: Vec<char>)
    requires
        forall|i: int, j: int|
            0 <= i < j < old(out)@.len() ==> text_lt(#[trigger] old(out)@[i]@, #[trigger] old(out)@[j]@),
    ensures
        final(out)@.map_values(|x: Vec<char>| x@).to_set() == old(out)@.map_values(
            |x: Vec<char>| x@,
        ).to_set().insert(w@),
        forall|i: int, j: int|
            0 <= i < j < final(out)@.len() ==> text_lt(
                #[trigger] final(out)@[i]@,
                #[trigger] final(out)@[j]@,
            ),
{
    let ghost before = out@;
    let ghost bv = before.map_values(|x: Vec<char>| x@);
    let mut p: usize = 0;
    while p < out.len() && crate::ranking::text_less(&out[p], &w)
        invariant
            p <= out@.len(),
            out@ == before,
            forall|i: int| 0 <= i < p ==> text_lt(#[trigger] out@[i]@, w@),
        decreases out.len() - p,
    {
        p = p + 1;
    }
    if p < out.len() && chars_eq(&out[p], &w) {
        assert(bv[p as int] == w@);
        assert(bv.to_set().insert(w@) =~= bv.to_set());
        return;
    }
    proof {
        if p < before.len() {
            crate::ranking::lemma_text_lt_order(before[p as int]@, w@, w@);
            assert forall|i: int| p <= i < before.len() implies text_lt(w@, #[trigger] before[i]@) by {
                if i > p {
                    crate::ranking::lemma_text_lt_order(w@, before[p as int]@, before[i]@);
                }
            }
        }
    }
    out.insert(p, w);
    proof {
        let ov = out@.map_values(|x: Vec<char>| x@);
        assert(ov =~= bv.insert(p as int, w@));
        assert forall|x: Seq<char>| ov.to_set().contains(x) <==> bv.to_set().insert(w@).contains(x) by {
            if ov.to_set().contains(x) {
                let i = choose|i: int| 0 <= i < ov.len() && ov[i] == x;
                if i < p {
                    assert(bv[i] == x);
                } else if i > p {
                    assert(bv[i - 1] == x);
                }
            }
            if bv.to_set().contains(x) {
                let i = choose|i: int| 0 <= i < bv.len() && bv[i] == x;
                if i < p {
                    assert(ov[i] == x);
                } else {
                    assert(ov[i + 1] == x);
                }
            }
            if x == w@ {
                assert(ov[p as int] == x);
            }
        }
        assert(ov.to_set() =~= bv.to_set().insert(w@));
        assert forall|i: int, j: int| 0 <= i < j < out@.len() implies text_lt(
            #[trigger] out@[i]@,
            #[trigger] out@[j]@,
        ) by {
            if j < p {
                assert(out@[i] == before[i] && out@[j] == before[j]);
            } else if j == p {
                assert(out@[i] == before[i]);
            } else if i < p {
                assert(out@[i] == before[i] && out@[j] == before[j - 1]);
                crate::ranking::lemma_text_lt_order(before[i]@, w@, before[j - 1]@);
            } else if i == p {
                assert(out@[j] == before[j - 1]);
            } else {
                assert(out@[i] == before[i - 1] && out@[j] == before[j - 1]);
            }
        }
    }
}

/// The comparison tokens of a field, as a sorted set: lowercased,
/// accent-folded, split on anything non-alphanumeric, with a leading "the"
/// dropped.
pub fn comparison_tokens(field: &str) -> (r: Vec<String>)
    ensures
        sorted_set(r@.map_values(|t: String| t@), comparison_words(field@)),
{
    let lowered = crate::browser::lowercase_of(field);
    let lv = chars_of(lowered.as_str());
    let mut folded: Vec<char> = Vec::new();
    let mut i: usize = 0;
    while i < lv.len()
        invariant
            i <= lv@.len(),
            folded@ == lv@.take(i as int).map_values(|c: char| fold_accent_spec(c)),
        decreases lv.len() - i,
    {
        folded.push(fold_accent(lv[i]));
        assert(folded@ =~= lv@.take(i + 1).map_values(|c: char| fold_accent_spec(c)));
        i = i + 1;
    }
    assert(lv@.take(lv@.len() as int) =~= lv@);
    let mut ws: Vec<Vec<char>> = Vec::new();
    split_words(&folded, 0, &mut ws);
    assert(folded@.skip(0) =~= folded@);
    let ghost all = ws@.map_values(|w: Vec<char>| w@);
    assert(all =~= words(lowercase(field@).map_values(|c: char| fold_accent_spec(c))));
    let start: usize = if ws.len() > 0 && chars_eq(&ws[0], &['t', 'h', 'e']) {
        1
    } else {
        0
    };
    let ghost kept = all.skip(start as int);
    assert(kept =~= comparison_words(field@));
    let mut set: Vec<Vec<char>> = Vec::new();
    let mut k = start;
    while k < ws.len()
        invariant
            start <= k <= ws@.len(),
            all == ws@.map_values(|w: Vec<char>| w@),
            kept == all.skip(start as int),
            set@.map_values(|x: Vec<char>| x@).to_set() == all.subrange(start as int, k as int).to_set(),
            forall|i: int, j: int|
                0 <= i < j < set@.len() ==> text_lt(#[trigger] set@[i]@, #[trigger] set@[j]@),
        decreases ws.len() - k,
    {
        let mut w: Vec<char> = Vec::new();
        crate::text::push_chars(&mut w, &ws[k]);
        assert(w@ =~= all[k as int]);
        insert_sorted(&mut set, w);
        assert(all.subrange(start as int, k + 1) =~= all.subrange(start as int, k as int).push(
            all[k as int],
        ));
        proof {
            all.subrange(start as int, k as int).lemma_push_to_set_commute(all[k as int]);
        }
        k = k + 1;
    }
    assert(all.subrange(start as int, ws@.len() as int) =~= kept);
    let mut r: Vec<String> = Vec::new();
    let mut j: usize = 0;
    while j < set.len()
        invariant
            j <= set@.len(),
            r@.map_values(|t: String| t@) == set@.take(j as int).map_values(|x: Vec<char>| x@),
        decreases set.len() - j,
    {
        let t = string_of(&set[j]);
        let ghost prev = r@;
        r.push(t);
        assert(r@ == prev.push(t));
        assert(r@.map_values(|t: String| t@) =~= prev.map_values(|t: String| t@).push(t@));
        assert(r@.map_values(|t: String| t@) =~= set@.take(j + 1).map_values(|x: Vec<char>| x@));
        j = j + 1;
    }
    assert(set@.take(set@.len() as int) =~= set@);
    assert(r@.map_values(|t: String| t@) =~= set@.map_values(|x: Vec<char>| x@));
    r
}

/// How many tokens `a` and `b` share, and how many they have between them.
pub open spec fn overlap(a: Seq<Seq<char>>, b: Seq<Seq<char>>) -> (nat, nat) {
    let shared = a.filter(|x: Seq<char>| b.contains(x)).len();
    (shared, (a.len() + b.len() - shared) as nat)
}

/// The sizes of the intersection and union of two token sets, each given
/// without duplicates.
pub fn field_overlap(a: &Vec<String>, b: &Vec<String>) -> (r: (usize, usize))
    requires
        a@.len() + b@.len() <= usize::MAX,
    ensures
        r.0 == overlap(a@.map_values(|t: String| t@), b@.map_values(|t: String| t@)).0,
        r.1 == overlap(a@.map_values(|t: String| t@), b@.map_values(|t: String| t@)).1,
{
    let ghost av = a@.map_values(|t: String| t@);
    let ghost bv = b@.map_values(|t: String| t@);
    let mut shared: usize = 0;
    let mut i: usize = 0;
    while i < a.len()
        invariant
            i <= a@.len(),
            av == a@.map_values(|t: String| t@),
            bv == b@.map_values(|t: String| t@),
            shared == av.take(i as int).filter(|x: Seq<char>| bv.contains(x)).len(),
            shared <= i,
        decreases a.len() - i,
    {
        let mut found = false;
        let mut j: usize = 0;
        while j < b.len()
            invariant
                i < a@.len(),
                j <= b@.len(),
                av == a@.map_values(|t: String| t@),
                bv == b@.map_values(|t: String| t@),
                found == exists|k: int| 0 <= k < j && bv[k] == av[i as int],
            decreases b.len() - j,
        {
            let same = a[i] == b[j];
            proof {
                assert(av[i as int] == a@[i as int]@);
                assert(bv[j as int] == b@[j as int]@);
                if same {
                    assert(bv[j as int] == av[i as int]);
                }
            }
            if same {
                found = true;
            }
            j = j + 1;
        }
        proof {
            reveal(Seq::filter);
            assert(av.take(i + 1).drop_last() =~= av.take(i as int));
            assert(av.take(i + 1).last() == av[i as int]);
            if found {
                let k = choose|k: int| 0 <= k < b@.len() && bv[k] == av[i as int];
                assert(bv.contains(av[i as int]));
            } else {
                assert(!bv.contains(av[i as int]));
            }
        }
        if found {
            shared = shared + 1;
        }
        i = i + 1;
    }
    assert(av.take(a@.len() as int) =~= av);
    (shared, a.len() + b.len() - shared)
}

} // verus!

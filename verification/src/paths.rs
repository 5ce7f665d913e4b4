//! Unix path text: components, file names and extensions, joining, and
//! relative paths between two locations.

use crate::text::{chars_eq, chars_of, find_char, find_char_from, lemma_find_char_props, string_of};
use vstd::prelude::*;

verus! {

broadcast use vstd::seq_lib::group_seq_properties;

/// One component of a path, as `Path::components` yields it on Unix.
pub enum Part {
    Root,
    Cur,
    Parent,
    Normal(Vec<char>),
}

pub enum PartView {
    Root,
    Cur,
    Parent,
    Normal(Seq<char>),
}

impl View for Part {
    type V = PartView;

    open spec fn view(&self) -> PartView {
        match self {
            Part::Root => PartView::Root,
            Part::Cur => PartView::Cur,
            Part::Parent => PartView::Parent,
            Part::Normal(v) => PartView::Normal(v@),
        }
    }
}

/// The component a piece between separators stands for: none for an empty
/// piece or ".", the parent for "..", a name otherwise.
pub open spec fn piece(p: Seq<char>) -> Seq<PartView> {
    if p.len() == 0 || p == seq!['.'] {
        Seq::empty()
    } else if p == seq!['.', '.'] {
        seq![PartView::Parent]
    } else {
        seq![PartView::Normal(p)]
    }
}

/// The components of the pieces of `s` separated by '/'.
pub open spec fn pieces(s: Seq<char>) -> Seq<PartView>
    decreases s.len(),
{
    match find_char(s, '/') {
        None => piece(s),
        Some(i) => {
            proof {
                lemma_find_char_props(s, '/');
            }
            piece(s.take(i)) + pieces(s.skip(i + 1))
        },
    }
}

/// The path starts with "." as a component of its own.
pub open spec fn starts_cur(s: Seq<char>) -> bool {
    s.len() >= 1 && s[0] == '.' && (s.len() == 1 || s[1] == '/')
}

/// `Path::components` on Unix: a root for a leading '/', a current-directory
/// component for a leading "." of its own, then the named pieces, with empty
/// pieces and inner "." dropped.
pub open spec fn components(s: Seq<char>) -> Seq<PartView> {
    if s.len() > 0 && s[0] == '/' {
        seq![PartView::Root] + pieces(s.drop_first())
    } else if starts_cur(s) {
        seq![PartView::Cur] + pieces(s.drop_first())
    } else {
        pieces(s)
    }
}

fn piece_exec(v: &[char], from: usize, to: usize, out: &mut Vec<Part>)
    requires
        from <= to <= v@.len(),
    ensures
        final(out)@.map_values(|p: Part| p@) == old(out)@.map_values(|p: Part| p@) + piece(
            v@.subrange(from as int, to as int),
        ),
{
    let ghost p = v@.subrange(from as int, to as int);
    if to == from {
        assert(out@.map_values(|p: Part| p@) =~= old(out)@.map_values(|p: Part| p@) + piece(p));
        return;
    }
    if to - from == 1 && v[from] == '.' {
        assert(p =~= seq!['.']);
        assert(out@.map_values(|p: Part| p@) =~= old(out)@.map_values(|p: Part| p@) + piece(p));
        return;
    }
    if to - from == 2 && v[from] == '.' && v[from + 1] == '.' {
        assert(p =~= seq!['.', '.']);
        out.push(Part::Parent);
        assert(out@.map_values(|p: Part| p@) =~= old(out)@.map_values(|p: Part| p@) + piece(p));
        return;
    }
    if to - from == 1 {
        assert(p != seq!['.']) by {
            assert(p[0] != seq!['.'][0]);
        }
    }
    if to - from == 2 {
        assert(p != seq!['.', '.']) by {
            if p[0] == '.' {
                assert(p[1] != seq!['.', '.'][1]);
            } else {
                assert(p[0] != seq!['.', '.'][0]);
            }
        }
    }
    let mut name: Vec<char> = Vec::new();
    let mut i = from;
    while i < to
        invariant
            from <= i <= to <= v@.len(),
            name@ == v@.subrange(from as int, i as int),
        decreases to - i,
    {
        name.push(v[i]);
        assert(name@ =~= v@.subrange(from as int, i + 1));
        i = i + 1;
    }
    out.push(Part::Normal(name));
    assert(out@.map_values(|p: Part| p@) =~= old(out)@.map_values(|p: Part| p@) + piece(p));
}

fn pieces_exec(v: &[char], from: usize, out: &mut Vec<Part>)
    requires
        from <= v@.len(),
    ensures
        final(out)@.map_values(|p: Part| p@) == old(out)@.map_values(|p: Part| p@) + pieces(
            v@.skip(from as int),
        ),
    decreases v@.len() - from,
{
    let sep = find_char_from(v, from, '/');
    if sep >= v.len() {
        piece_exec(v, from, v.len(), out);
        assert(v@.subrange(from as int, v@.len() as int) =~= v@.skip(from as int));
    } else {
        let ghost s = v@.skip(from as int);
        proof {
            lemma_find_char_props(s, '/');
        }
        piece_exec(v, from, sep, out);
        assert(v@.subrange(from as int, sep as int) =~= s.take(sep - from));
        pieces_exec(v, sep + 1, out);
        assert(v@.skip(sep + 1) =~= s.skip(sep - from + 1));
        assert(out@.map_values(|p: Part| p@) =~= old(out)@.map_values(|p: Part| p@) + pieces(s));
    }
}

/// The components of the path text `v`.
pub fn components_of(v: &[char]) -> (r: Vec<Part>)
    ensures
        r@.map_values(|p: Part| p@) == components(v@),
{
    let mut out: Vec<Part> = Vec::new();
    if v.len() > 0 && v[0] == '/' {
        out.push(Part::Root);
        pieces_exec(v, 1, &mut out);
        assert(v@.skip(1) =~= v@.drop_first());
    } else if v.len() >= 1 && v[0] == '.' && (v.len() == 1 || v[1] == '/') {
        out.push(Part::Cur);
        pieces_exec(v, 1, &mut out);
        assert(v@.skip(1) =~= v@.drop_first());
    } else {
        pieces_exec(v, 0, &mut out);
        assert(v@.skip(0) =~= v@);
    }
    assert(out@.map_values(|p: Part| p@) =~= components(v@));
    out
}

fn part_eq(a: &Part, b: &Part) -> (r: bool)
    ensures
        r == (a@ == b@),
{
    match (a, b) {
        (Part::Root, Part::Root) => true,
        (Part::Cur, Part::Cur) => true,
        (Part::Parent, Part::Parent) => true,
        (Part::Normal(x), Part::Normal(y)) => chars_eq(x, y),
        _ => false,
    }
}

/// The text a component contributes when pushed onto a path.
pub open spec fn part_text(p: PartView) -> Seq<char> {
    match p {
        PartView::Root => seq!['/'],
        PartView::Cur => seq!['.'],
        PartView::Parent => seq!['.', '.'],
        PartView::Normal(n) => n,
    }
}

/// The number of leading components `a` and `b` share.
pub open spec fn common_prefix_len(a: Seq<PartView>, b: Seq<PartView>) -> nat
    decreases a.len(),
{
    if a.len() == 0 || b.len() == 0 || a[0] != b[0] {
        0
    } else {
        1 + common_prefix_len(a.drop_first(), b.drop_first())
    }
}

/// `parts` joined with '/'.
pub open spec fn join_slash(parts: Seq<Seq<char>>) -> Seq<char>
    decreases parts.len(),
{
    if parts.len() == 0 {
        Seq::empty()
    } else if parts.len() == 1 {
        parts[0]
    } else {
        join_slash(parts.drop_last()) + seq!['/'] + parts.last()
    }
}

proof fn lemma_common_prefix(a: Seq<PartView>, b: Seq<PartView>, k: int)
    requires
        0 <= k <= a.len(),
        k <= b.len(),
        forall|j: int| 0 <= j < k ==> a[j] == b[j],
    ensures
        k == a.len() || k == b.len() || a[k] != b[k] ==> common_prefix_len(a, b) == k,
        common_prefix_len(a, b) >= k,
    decreases k,
{
    if k > 0 {
        assert forall|j: int| 0 <= j < k - 1 implies a.drop_first()[j] == b.drop_first()[j] by {
            assert(a.drop_first()[j] == a[j + 1]);
            assert(b.drop_first()[j] == b[j + 1]);
        }
        lemma_common_prefix(a.drop_first(), b.drop_first(), k - 1);
    } else {
    }
}

fn push_slash_part(out: &mut Vec<char>, first: bool, text: &[char])
    ensures
        final(out)@ == if first {
            old(out)@ + text@
        } else {
            old(out)@ + seq!['/'] + text@
        },
{
    if !first {
        out.push('/');
    }
    crate::text::push_chars(out, text);
    if first {
        assert(out@ =~= old(out)@ + text@);
    } else {
        assert(out@ =~= old(out)@ + seq!['/'] + text@);
    }
}

fn part_text_exec(p: &Part) -> (r: Vec<char>)
    ensures
        r@ == part_text(p@),
{
    match p {
        Part::Root => vec!['/'],
        Part::Cur => vec!['.'],
        Part::Parent => vec!['.', '.'],
        Part::Normal(n) => {
            let mut out: Vec<char> = Vec::new();
            crate::text::push_chars(&mut out, n);
            assert(out@ =~= n@);
            out
        },
    }
}

proof fn lemma_join_slash_push(parts: Seq<Seq<char>>, x: Seq<char>)
    ensures
        join_slash(parts.push(x)) == if parts.len() == 0 {
            x
        } else {
            join_slash(parts) + seq!['/'] + x
        },
{
    assert(parts.push(x).drop_last() =~= parts);
}

/// The number of leading components `a` and `b` share.
pub fn common_parts(a: &Vec<Part>, b: &Vec<Part>) -> (r: usize)
    ensures
        r == common_prefix_len(a@.map_values(|p: Part| p@), b@.map_values(|p: Part| p@)),
        r <= a@.len(),
        r <= b@.len(),
{
    let ghost av = a@.map_values(|p: Part| p@);
    let ghost bv = b@.map_values(|p: Part| p@);
    let mut common: usize = 0;
    while common < a.len() && common < b.len() && part_eq(&a[common], &b[common])
        invariant
            common <= a@.len(),
            common <= b@.len(),
            av == a@.map_values(|p: Part| p@),
            bv == b@.map_values(|p: Part| p@),
            forall|j: int| 0 <= j < common ==> av[j] == bv[j],
        decreases a.len() - common,
    {
        common = common + 1;
    }
    proof {
        lemma_common_prefix(av, bv, common as int);
    }
    common
}

/// `ups` times "..", then the components `parts[from..]`, joined with '/'.
pub open spec fn climb_then(ups: nat, rest: Seq<PartView>) -> Seq<char> {
    join_slash(Seq::new(ups, |_i: int| seq!['.', '.']) + part_texts(rest))
}

proof fn lemma_join_slash_concat(a: Seq<Seq<char>>, b: Seq<Seq<char>>)
    requires
        a.len() > 0,
    ensures
        join_slash(a + b) == if b.len() == 0 {
            join_slash(a)
        } else {
            join_slash(a) + seq!['/'] + join_slash(b)
        },
    decreases b.len(),
{
    if b.len() == 0 {
        assert(a + b =~= a);
    } else if b.len() == 1 {
        assert((a + b).drop_last() =~= a);
    } else {
        lemma_join_slash_concat(a, b.drop_last());
        assert((a + b).drop_last() =~= a + b.drop_last());
    }
}

/// `ups` times ".." joined with '/'.
fn dotdots(ups: usize) -> (r: Vec<char>)
    ensures
        r@ == join_slash(Seq::new(ups as nat, |_i: int| seq!['.', '.'])),
{
    let ghost all = Seq::new(ups as nat, |_i: int| seq!['.', '.']);
    let mut out: Vec<char> = Vec::new();
    let mut k: usize = 0;
    while k < ups
        invariant
            k <= ups,
            all == Seq::new(ups as nat, |_i: int| seq!['.', '.']),
            out@ == join_slash(all.take(k as int)),
        decreases ups - k,
    {
        push_slash_part(&mut out, k == 0, &['.', '.']);
        proof {
            lemma_join_slash_push(all.take(k as int), seq!['.', '.']);
            assert(all.take(k + 1) =~= all.take(k as int).push(seq!['.', '.']));
        }
        k = k + 1;
    }
    assert(all.take(ups as int) =~= all);
    out
}

pub fn climb_then_exec(ups: usize, parts: &Vec<Part>, from: usize) -> (r: Vec<char>)
    requires
        from <= parts@.len(),
    ensures
        r@ == climb_then(ups as nat, parts@.map_values(|p: Part| p@).skip(from as int)),
{
    let ghost ts = parts@.map_values(|p: Part| p@);
    let ghost ups_s = Seq::new(ups as nat, |_i: int| seq!['.', '.']);
    let ghost rest_s = part_texts(ts.skip(from as int));
    assert(parts@.subrange(from as int, parts@.len() as int).map_values(|p: Part| p@) =~= ts.skip(
        from as int,
    ));
    let rest = join_parts(parts, from, parts.len());
    if ups == 0 {
        assert(ups_s + rest_s =~= rest_s);
        return rest;
    }
    let mut out = dotdots(ups);
    proof {
        lemma_join_slash_concat(ups_s, rest_s);
    }
    if from < parts.len() {
        out.push('/');
        crate::text::push_chars(&mut out, &rest);
        assert(out@ =~= join_slash(ups_s) + seq!['/'] + join_slash(rest_s));
    }
    out
}

/// `target` expressed relative to `base` by climbing with ".." out of the
/// part of `base` not shared with `target`; `target` itself when the two
/// share no leading component.
pub open spec fn relative_to_spec(base: Seq<char>, target: Seq<char>) -> Seq<char> {
    let b = components(base);
    let t = components(target);
    let common = common_prefix_len(b, t);
    if common == 0 {
        target
    } else {
        climb_then((b.len() - common) as nat, t.skip(common as int))
    }
}

/// Express `target` relative to `base_dir` using `../` as needed; the target's
/// own text when the two share no leading component.
pub fn relative_to(base_dir: &str, target: &str) -> (r: String)
    ensures
        r@ == relative_to_spec(base_dir@, target@),
{
    let bv = chars_of(base_dir);
    let tv = chars_of(target);
    let base = components_of(&bv);
    let targ = components_of(&tv);
    let common = common_parts(&base, &targ);
    if common == 0 {
        return string_of(&tv);
    }
    let out = climb_then_exec(base.len() - common, &targ, common);
    string_of(&out)
}

/// `base` with `rel` pushed onto it as `PathBuf::push` does: an absolute
/// `rel` replaces `base`; otherwise a separator is added unless `base` is
/// empty or already ends in one.
pub open spec fn join_spec(base: Seq<char>, rel: Seq<char>) -> Seq<char> {
    if rel.len() > 0 && rel[0] == '/' {
        rel
    } else if base.len() == 0 || base.last() == '/' {
        base + rel
    } else {
        base + seq!['/'] + rel
    }
}

pub fn join(base: &str, rel: &str) -> (r: String)
    ensures
        r@ == join_spec(base@, rel@),
{
    let b = chars_of(base);
    let t = chars_of(rel);
    if t.len() > 0 && t[0] == '/' {
        return string_of(&t);
    }
    let mut out: Vec<char> = Vec::new();
    crate::text::push_chars(&mut out, &b);
    if !(b.len() == 0 || b[b.len() - 1] == '/') {
        out.push('/');
    }
    crate::text::push_chars(&mut out, &t);
    assert(out@ =~= join_spec(base@, rel@));
    string_of(&out)
}

/// The last component when it is a name (`Path::file_name`).
pub open spec fn file_name_spec(path: Seq<char>) -> Option<Seq<char>> {
    let c = components(path);
    if c.len() > 0 && c.last() is Normal {
        Some(c.last()->Normal_0)
    } else {
        None
    }
}

/// The part of a file name after its last '.', when that '.' is not the
/// first character (`Path::extension`).
pub open spec fn extension_of_name(name: Seq<char>) -> Option<Seq<char>> {
    match last_dot(name) {
        Some(i) => if i == 0 {
            None
        } else {
            Some(name.skip(i + 1))
        },
        None => None,
    }
}

/// The position of the last '.' in `s`.
pub open spec fn last_dot(s: Seq<char>) -> Option<int>
    decreases s.len(),
{
    if s.len() == 0 {
        None
    } else if s.last() == '.' {
        Some(s.len() - 1)
    } else {
        last_dot(s.drop_last())
    }
}

pub open spec fn extension_spec(path: Seq<char>) -> Option<Seq<char>> {
    match file_name_spec(path) {
        Some(n) => extension_of_name(n),
        None => None,
    }
}

fn last_dot_exec(v: &[char]) -> (r: Option<usize>)
    ensures
        match r {
            Some(i) => last_dot(v@) == Some(i as int) && i < v@.len(),
            None => last_dot(v@) is None,
        },
{
    let mut i = v.len();
    while i > 0
        invariant
            i <= v@.len(),
            last_dot(v@) == last_dot(v@.take(i as int)),
        decreases i,
    {
        if v[i - 1] == '.' {
            assert(v@.take(i as int).last() == '.');
            return Some(i - 1);
        }
        assert(v@.take(i as int).drop_last() =~= v@.take(i - 1));
        i = i - 1;
    }
    None
}

/// The file name of `path`, if it ends in a name.
pub fn file_name(path: &str) -> (r: Option<String>)
    ensures
        match file_name_spec(path@) {
            Some(n) => r matches Some(s) && s@ == n,
            None => r is None,
        },
{
    let v = chars_of(path);
    let parts = components_of(&v);
    let ghost ps = parts@.map_values(|p: Part| p@);
    if parts.len() == 0 {
        return None;
    }
    match &parts[parts.len() - 1] {
        Part::Normal(n) => {
            assert(ps.last() == parts@.last()@);
            Some(string_of(n))
        },
        _ => {
            assert(ps.last() == parts@.last()@);
            None
        },
    }
}

/// The extension of `path` (`Path::extension`).
pub fn extension(path: &str) -> (r: Option<String>)
    ensures
        match extension_spec(path@) {
            Some(e) => r matches Some(s) && s@ == e,
            None => r is None,
        },
{
    let name = match file_name(path) {
        Some(n) => n,
        None => return None,
    };
    let v = chars_of(name.as_str());
    let n = v.len();
    match last_dot_exec(&v) {
        Some(i) => {
            if i == 0 {
                None
            } else {
                let s = crate::text::string_of_range(&v, i + 1, n);
                assert(v@.subrange(i + 1, v@.len() as int) =~= v@.skip(i + 1));
                Some(s)
            }
        },
        None => None,
    }
}


/// The text of each component.
pub open spec fn part_texts(c: Seq<PartView>) -> Seq<Seq<char>> {
    c.map_values(|p: PartView| part_text(p))
}

/// A path's text rebuilt from its components, as `PathBuf::push` joins
/// them: a root contributes the leading '/', the rest are joined with '/'.
pub open spec fn parts_text(c: Seq<PartView>) -> Seq<char> {
    if c.len() > 0 && c[0] == PartView::Root {
        seq!['/'] + join_slash(part_texts(c.drop_first()))
    } else {
        join_slash(part_texts(c))
    }
}

/// `Path::parent`: the path without its last component, when that component
/// is a name, "." or ".."; none for a bare root or an empty path.
pub open spec fn parent_spec(path: Seq<char>) -> Option<Seq<char>> {
    let c = components(path);
    if c.len() == 0 || c.last() == PartView::Root {
        None
    } else {
        Some(parts_text(c.drop_last()))
    }
}

/// The components of `parts[from..to]` joined with '/'.
fn join_parts(parts: &Vec<Part>, from: usize, to: usize) -> (r: Vec<char>)
    requires
        from <= to <= parts@.len(),
    ensures
        r@ == join_slash(
            part_texts(parts@.subrange(from as int, to as int).map_values(|p: Part| p@)),
        ),
{
    let ghost all = part_texts(parts@.subrange(from as int, to as int).map_values(|p: Part| p@));
    let mut out: Vec<char> = Vec::new();
    let mut j = from;
    while j < to
        invariant
            from <= j <= to <= parts@.len(),
            all == part_texts(parts@.subrange(from as int, to as int).map_values(|p: Part| p@)),
            out@ == join_slash(all.take(j - from)),
        decreases to - j,
    {
        let text = part_text_exec(&parts[j]);
        push_slash_part(&mut out, j == from, &text);
        proof {
            let n = j - from;
            assert(all[n] == part_text(parts@[j as int]@));
            lemma_join_slash_push(all.take(n), all[n]);
            assert(all.take(n + 1) =~= all.take(n).push(all[n]));
        }
        j = j + 1;
    }
    assert(all.take(to - from) =~= all);
    out
}

/// The text of `parts[from..to]` as a path (`parts_text`).
fn parts_text_exec(parts: &Vec<Part>, from: usize, to: usize) -> (r: Vec<char>)
    requires
        from <= to <= parts@.len(),
    ensures
        r@ == parts_text(parts@.subrange(from as int, to as int).map_values(|p: Part| p@)),
{
    let ghost c = parts@.subrange(from as int, to as int).map_values(|p: Part| p@);
    if from < to && matches!(parts[from], Part::Root) {
        let rest = join_parts(parts, from + 1, to);
        assert(parts@.subrange(from + 1, to as int).map_values(|p: Part| p@) =~= c.drop_first());
        let mut out: Vec<char> = vec!['/'];
        crate::text::push_chars(&mut out, &rest);
        assert(out@ =~= seq!['/'] + rest@);
        out
    } else {
        join_parts(parts, from, to)
    }
}

/// The parent directory of `path` (`Path::parent`), rebuilt from its
/// components.
pub fn parent(path: &str) -> (r: Option<String>)
    ensures
        match parent_spec(path@) {
            Some(p) => r matches Some(s) && s@ == p,
            None => r is None,
        },
{
    let v = chars_of(path);
    let parts = components_of(&v);
    let ghost c = parts@.map_values(|p: Part| p@);
    let n = parts.len();
    if n == 0 {
        return None;
    }
    assert(c.last() == parts@[n - 1]@);
    if matches!(parts[n - 1], Part::Root) {
        return None;
    }
    let text = parts_text_exec(&parts, 0, n - 1);
    assert(parts@.subrange(0, n - 1).map_values(|p: Part| p@) =~= c.drop_last());
    Some(string_of(&text))
}


/// `common_prefix_len` counts a shared prefix that stops at the end of either
/// sequence or at the first difference.
pub proof fn lemma_common_prefix_props(a: Seq<PartView>, b: Seq<PartView>)
    ensures
        common_prefix_len(a, b) <= a.len(),
        common_prefix_len(a, b) <= b.len(),
        forall|j: int| 0 <= j < common_prefix_len(a, b) ==> #[trigger] a[j] == b[j],
        common_prefix_len(a, b) == a.len() || common_prefix_len(a, b) == b.len() || a[common_prefix_len(
            a,
            b,
        ) as int] != b[common_prefix_len(a, b) as int],
        common_prefix_len(a, b) == a.len() <==> (a.len() <= b.len() && b.take(a.len() as int) == a),
    decreases a.len(),
{
    if a.len() == 0 || b.len() == 0 || a[0] != b[0] {
        if a.len() == 0 {
            assert(b.take(0) =~= a);
        }
        if a.len() > 0 && b.len() > 0 && a[0] != b[0] && a.len() <= b.len() {
            assert(b.take(a.len() as int)[0] != a[0]);
        }
    } else {
        lemma_common_prefix_props(a.drop_first(), b.drop_first());
        let c = common_prefix_len(a, b);
        assert forall|j: int| 0 <= j < c implies #[trigger] a[j] == b[j] by {
            if j > 0 {
                assert(a.drop_first()[j - 1] == b.drop_first()[j - 1]);
            }
        }
        if a.len() <= b.len() && b.take(a.len() as int) == a {
            assert(b.drop_first().take(a.len() - 1) =~= a.drop_first());
        }
        if c == a.len() {
            assert(b.drop_first().take(a.len() - 1) =~= a.drop_first());
            assert(b.take(a.len() as int) =~= a);
        }
    }
}

/// `Path::strip_prefix`: when the components of `base` lead those of `path`,
/// the rest of `path` (rebuilt from its components).
pub open spec fn strip_prefix_spec(path: Seq<char>, base: Seq<char>) -> Option<Seq<char>> {
    let b = components(base);
    let t = components(path);
    if b.len() <= t.len() && t.take(b.len() as int) == b {
        Some(parts_text(t.skip(b.len() as int)))
    } else {
        None
    }
}

pub fn strip_prefix(path: &str, base: &str) -> (r: Option<String>)
    ensures
        match strip_prefix_spec(path@, base@) {
            Some(rest) => r matches Some(s) && s@ == rest,
            None => r is None,
        },
{
    let pv = chars_of(path);
    let bv = chars_of(base);
    let t = components_of(&pv);
    let b = components_of(&bv);
    let common = common_parts(&b, &t);
    proof {
        lemma_common_prefix_props(b@.map_values(|p: Part| p@), t@.map_values(|p: Part| p@));
    }
    if common != b.len() {
        return None;
    }
    let rest = parts_text_exec(&t, common, t.len());
    assert(t@.subrange(common as int, t@.len() as int).map_values(|p: Part| p@) =~= t@.map_values(
        |p: Part| p@,
    ).skip(common as int));
    Some(string_of(&rest))
}

/// A file name without its extension: before its last '.', unless that
/// '.' is the first character or there is none.
pub open spec fn stem_of_name(name: Seq<char>) -> Seq<char> {
    match last_dot(name) {
        Some(i) => if i == 0 {
            name
        } else {
            name.take(i)
        },
        None => name,
    }
}

/// `Path::file_stem`.
pub open spec fn file_stem_spec(path: Seq<char>) -> Option<Seq<char>> {
    match file_name_spec(path) {
        Some(n) => Some(stem_of_name(n)),
        None => None,
    }
}

/// The file name of `path` without its extension (`Path::file_stem`).
pub fn file_stem(path: &str) -> (r: Option<String>)
    ensures
        match file_stem_spec(path@) {
            Some(s) => r matches Some(t) && t@ == s,
            None => r is None,
        },
{
    let name = match file_name(path) {
        Some(n) => n,
        None => return None,
    };
    let v = chars_of(name.as_str());
    match last_dot_exec(&v) {
        Some(i) => {
            if i == 0 {
                Some(name)
            } else {
                let s = crate::text::string_of_range(&v, 0, i);
                assert(v@.subrange(0, i as int) =~= v@.take(i as int));
                Some(s)
            }
        },
        None => Some(name),
    }
}

} // verus!

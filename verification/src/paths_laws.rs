//! A relative hint leads back to its file: joining a directory with the path
//! `relative_to` computes from it, and resolving the ".." components the way
//! a file system does, gives the target's own components.

use crate::paths::{
    climb_then, common_prefix_len, components, join_slash, join_spec, lemma_common_prefix_props,
    part_text, part_texts, piece, pieces, relative_to_spec, PartView,
};
use crate::text::{find_char, lemma_find_char_at, lemma_find_char_props};
use vstd::prelude::*;

verus! {

broadcast use vstd::seq_lib::group_seq_properties;

/// A path given by its root and then names only (as a canonical absolute
/// path is).
pub open spec fn canonical(c: Seq<PartView>) -> bool {
    &&& c.len() >= 1
    &&& c[0] == PartView::Root
    &&& forall|i: int| 1 <= i < c.len() ==> #[trigger] c[i] is Normal
}

/// One step of resolving components: "." stays, ".." leaves the last name
/// (and stays at the root), anything else is appended.
pub open spec fn resolve_step(acc: Seq<PartView>, p: PartView) -> Seq<PartView> {
    match p {
        PartView::Cur => acc,
        PartView::Parent => if acc.len() > 0 && acc.last() is Normal {
            acc.drop_last()
        } else if acc.len() > 0 && acc.last() == PartView::Root {
            acc
        } else {
            acc.push(p)
        },
        _ => acc.push(p),
    }
}

/// `ps` resolved onto `acc`, left to right.
pub open spec fn resolve_from(acc: Seq<PartView>, ps: Seq<PartView>) -> Seq<PartView>
    decreases ps.len(),
{
    if ps.len() == 0 {
        acc
    } else {
        resolve_step(resolve_from(acc, ps.drop_last()), ps.last())
    }
}

/// The components of a path with its ".." and "." resolved.
pub open spec fn resolved(ps: Seq<PartView>) -> Seq<PartView> {
    resolve_from(Seq::empty(), ps)
}

pub open spec fn no_slash(w: Seq<char>) -> bool {
    forall|i: int| 0 <= i < w.len() ==> w[i] != '/'
}

/// A name a component can carry.
pub open spec fn clean_name(n: Seq<char>) -> bool {
    n.len() > 0 && no_slash(n) && n != seq!['.'] && n != seq!['.', '.']
}

/// The components of each piece, in order.
pub open spec fn flat_pieces(ws: Seq<Seq<char>>) -> Seq<PartView>
    decreases ws.len(),
{
    if ws.len() == 0 {
        Seq::empty()
    } else {
        flat_pieces(ws.drop_last()) + piece(ws.last())
    }
}

proof fn lemma_find_none(s: Seq<char>, c: char)
    requires
        forall|j: int| 0 <= j < s.len() ==> s[j] != c,
    ensures
        find_char(s, c) is None,
    decreases s.len(),
{
    if s.len() > 0 {
        assert forall|j: int| 0 <= j < s.drop_first().len() implies s.drop_first()[j] != c by {
            assert(s.drop_first()[j] == s[j + 1]);
        }
        lemma_find_none(s.drop_first(), c);
    }
}

/// Splitting at a separator splits the components.
proof fn lemma_pieces_concat(s: Seq<char>, t: Seq<char>)
    ensures
        pieces(s + seq!['/'] + t) == pieces(s) + pieces(t),
    decreases s.len(),
{
    let u = s + seq!['/'] + t;
    lemma_find_char_props(s, '/');
    match find_char(s, '/') {
        Some(i) => {
            assert(u[i] == '/');
            assert forall|j: int| 0 <= j < i implies u[j] != '/' by {
                assert(u[j] == s[j]);
            }
            lemma_find_char_at(u, '/', i);
            assert(u.take(i) =~= s.take(i));
            assert(u.skip(i + 1) =~= s.skip(i + 1) + seq!['/'] + t);
            lemma_pieces_concat(s.skip(i + 1), t);
            assert(pieces(s) == piece(s.take(i)) + pieces(s.skip(i + 1)));
            assert(pieces(u) == piece(u.take(i)) + pieces(u.skip(i + 1)));
            assert(pieces(u) =~= pieces(s) + pieces(t));
        },
        None => {
            let n = s.len() as int;
            assert(u[n] == '/');
            assert forall|j: int| 0 <= j < n implies u[j] != '/' by {
                assert(u[j] == s[j]);
            }
            lemma_find_char_at(u, '/', n);
            assert(u.take(n) =~= s);
            assert(u.skip(n + 1) =~= t);
            assert(pieces(u) == piece(s) + pieces(t));
            assert(pieces(s) == piece(s));
        },
    }
}

proof fn lemma_pieces_no_slash(w: Seq<char>)
    requires
        no_slash(w),
    ensures
        pieces(w) == piece(w),
{
    lemma_find_none(w, '/');
}

/// Re-reading pieces joined with '/' gives back the components of each.
proof fn lemma_pieces_join(ws: Seq<Seq<char>>)
    requires
        forall|i: int| 0 <= i < ws.len() ==> no_slash(#[trigger] ws[i]),
    ensures
        pieces(join_slash(ws)) == flat_pieces(ws),
    decreases ws.len(),
{
    if ws.len() == 0 {
        assert(pieces(Seq::<char>::empty()) == piece(Seq::<char>::empty())) by {
            lemma_find_none(Seq::<char>::empty(), '/');
        }
    } else if ws.len() == 1 {
        lemma_pieces_no_slash(ws[0]);
        assert(ws.drop_last() =~= Seq::<Seq<char>>::empty());
        assert(flat_pieces(ws.drop_last()) =~= Seq::<PartView>::empty());
        assert(ws.last() == ws[0]);
        assert(flat_pieces(ws) =~= piece(ws[0]));
    } else {
        let a = ws.drop_last();
        assert forall|i: int| 0 <= i < a.len() implies no_slash(#[trigger] a[i]) by {
            assert(a[i] == ws[i]);
        }
        lemma_pieces_join(a);
        lemma_pieces_concat(join_slash(a), ws.last());
        lemma_pieces_no_slash(ws.last());
    }
}

proof fn lemma_flat_concat(a: Seq<Seq<char>>, b: Seq<Seq<char>>)
    ensures
        flat_pieces(a + b) == flat_pieces(a) + flat_pieces(b),
    decreases b.len(),
{
    if b.len() == 0 {
        assert(a + b =~= a);
    } else {
        assert((a + b).drop_last() =~= a + b.drop_last());
        lemma_flat_concat(a, b.drop_last());
    }
}

/// Each component a path text yields is ".." or a clean name.
proof fn lemma_pieces_clean(s: Seq<char>)
    ensures
        forall|i: int|
            0 <= i < pieces(s).len() ==> #[trigger] pieces(s)[i] == PartView::Parent || (
            pieces(s)[i] is Normal && clean_name(pieces(s)[i]->Normal_0)),
    decreases s.len(),
{
    lemma_find_char_props(s, '/');
    match find_char(s, '/') {
        Some(i) => {
            lemma_pieces_clean(s.skip(i + 1));
            let p = s.take(i);
            assert(no_slash(p));
            let a = piece(p);
            let b = pieces(s.skip(i + 1));
            assert(pieces(s) == a + b);
            assert forall|k: int| 0 <= k < pieces(s).len() implies #[trigger] pieces(s)[k]
                == PartView::Parent || (pieces(s)[k] is Normal && clean_name(
                pieces(s)[k]->Normal_0,
            )) by {
                if k < a.len() {
                    assert(pieces(s)[k] == a[k]);
                } else {
                    assert(pieces(s)[k] == b[k - a.len()]);
                }
            }
        },
        None => {
            assert(no_slash(s));
        },
    }
}

/// The components of an absolute path are its root and the components of
/// the rest.
proof fn lemma_absolute_components(s: Seq<char>)
    requires
        s.len() > 0,
        s[0] == '/',
    ensures
        components(s) == seq![PartView::Root] + pieces(s.drop_first()),
{
}

/// The components of `base + "/" + r` for an absolute `base`.
proof fn lemma_join_with_separator(base: Seq<char>, r: Seq<char>)
    requires
        base.len() > 0,
        base[0] == '/',
    ensures
        components(base + seq!['/'] + r) == components(base) + pieces(r),
{
    let j = base + seq!['/'] + r;
    let b = base.drop_first();
    assert(j[0] == '/');
    assert(j.drop_first() =~= b + seq!['/'] + r);
    lemma_pieces_concat(b, r);
}

/// The components of `base + r` for an absolute `base` ending in '/'.
proof fn lemma_join_after_separator(base: Seq<char>, r: Seq<char>)
    requires
        base.len() > 0,
        base[0] == '/',
        base.last() == '/',
    ensures
        components(base + r) == components(base) + pieces(r),
{
    let j = base + r;
    let b = base.drop_first();
    assert(j[0] == '/');
    if b.len() == 0 {
        assert(j.drop_first() =~= r);
        lemma_find_none(b, '/');
        assert(piece(b) =~= Seq::<PartView>::empty());
        assert(components(base) =~= seq![PartView::Root]);
    } else {
        let b2 = b.drop_last();
        let e = Seq::<char>::empty();
        assert(b =~= b2 + seq!['/'] + e);
        lemma_pieces_concat(b2, e);
        lemma_find_none(e, '/');
        assert(pieces(e) =~= Seq::<PartView>::empty());
        assert(pieces(b) =~= pieces(b2));
        assert(j.drop_first() =~= b2 + seq!['/'] + r);
        lemma_pieces_concat(b2, r);
    }
}

/// Joining a relative path onto an absolute one appends its components.
proof fn lemma_join_components(base: Seq<char>, r: Seq<char>)
    requires
        base.len() > 0,
        base[0] == '/',
        r.len() == 0 || r[0] != '/',
    ensures
        components(join_spec(base, r)) == components(base) + pieces(r),
{
    if base.last() == '/' {
        lemma_join_after_separator(base, r);
    } else {
        lemma_join_with_separator(base, r);
    }
}

proof fn lemma_resolve_concat(acc: Seq<PartView>, x: Seq<PartView>, y: Seq<PartView>)
    ensures
        resolve_from(acc, x + y) == resolve_from(resolve_from(acc, x), y),
    decreases y.len(),
{
    if y.len() == 0 {
        assert(x + y =~= x);
    } else {
        assert((x + y).drop_last() =~= x + y.drop_last());
        assert((x + y).last() == y.last());
        lemma_resolve_concat(acc, x, y.drop_last());
    }
}

/// Resolving names only appends them.
proof fn lemma_resolve_names(acc: Seq<PartView>, ns: Seq<PartView>)
    requires
        forall|i: int| 0 <= i < ns.len() ==> #[trigger] ns[i] is Normal,
    ensures
        resolve_from(acc, ns) == acc + ns,
    decreases ns.len(),
{
    if ns.len() == 0 {
        assert(acc + ns =~= acc);
    } else {
        assert forall|i: int| 0 <= i < ns.drop_last().len() implies #[trigger] ns.drop_last()[i] is Normal by {
            assert(ns.drop_last()[i] == ns[i]);
        }
        lemma_resolve_names(acc, ns.drop_last());
        assert(ns.last() == ns[ns.len() - 1]);
        assert((acc + ns.drop_last()).push(ns.last()) =~= acc + ns);
    }
}

/// Each ".." after a canonical path leaves one name.
proof fn lemma_resolve_climb(c: Seq<PartView>, j: nat)
    requires
        canonical(c),
        j < c.len(),
    ensures
        resolve_from(c, Seq::new(j, |_i: int| PartView::Parent)) == c.take(c.len() - j),
    decreases j,
{
    let ups = Seq::new(j, |_i: int| PartView::Parent);
    if j == 0 {
        assert(c.take(c.len() as int) =~= c);
    } else {
        assert(ups.drop_last() =~= Seq::new((j - 1) as nat, |_i: int| PartView::Parent));
        lemma_resolve_climb(c, (j - 1) as nat);
        let prev = c.take(c.len() - (j - 1));
        assert(prev.len() >= 2);
        assert(prev.last() == c[c.len() - j]);
        assert(prev.drop_last() =~= c.take(c.len() - j));
    }
}

/// The names after the shared prefix of a canonical absolute path are clean.
proof fn lemma_tail_clean(target: Seq<char>, common: nat)
    requires
        target.len() > 0 && target[0] == '/',
        canonical(components(target)),
        1 <= common <= components(target).len(),
    ensures
        forall|i: int|
            0 <= i < components(target).skip(common as int).len() ==> #[trigger] components(
                target,
            ).skip(common as int)[i] is Normal && clean_name(
                components(target).skip(common as int)[i]->Normal_0,
            ),
{
    let t = components(target);
    let tail = t.skip(common as int);
    lemma_absolute_components(target);
    lemma_pieces_clean(target.drop_first());
    assert forall|i: int| 0 <= i < tail.len() implies #[trigger] tail[i] is Normal && clean_name(
        tail[i]->Normal_0,
    ) by {
        assert(tail[i] == t[i + common]);
        assert(t[i + common] == pieces(target.drop_first())[i + common - 1]);
    }
}

/// The hint is relative, and its components are `ups` times ".." and then
/// the names of `tail`.
proof fn lemma_hint_pieces(ups: nat, tail: Seq<PartView>)
    requires
        forall|i: int| 0 <= i < tail.len() ==> #[trigger] tail[i] is Normal && clean_name(
            tail[i]->Normal_0,
        ),
    ensures
        climb_then(ups, tail).len() == 0 || climb_then(ups, tail)[0] != '/',
        pieces(climb_then(ups, tail)) == Seq::new(ups, |_i: int| PartView::Parent) + tail,
{
    let dots = Seq::new(ups, |_i: int| seq!['.', '.']);
    let ws = dots + part_texts(tail);
    let r = climb_then(ups, tail);
    assert(r == join_slash(ws));
    assert forall|i: int| 0 <= i < ws.len() implies no_slash(#[trigger] ws[i]) by {
        if i >= ups {
            assert(ws[i] == part_text(tail[i - ups]));
        }
    }
    lemma_pieces_join(ws);
    lemma_flat_concat(dots, part_texts(tail));
    lemma_flat_dotdots(ups);
    lemma_flat_names(tail);
    if r.len() > 0 {
        assert(ws.len() > 0);
        if ups > 0 {
            assert(ws[0] == seq!['.', '.']);
        } else {
            assert(ws[0] == part_text(tail[0]));
        }
        lemma_join_first(ws);
    }
}

/// A canonical path resolves to itself.
proof fn lemma_resolve_canonical(b: Seq<PartView>)
    requires
        canonical(b),
    ensures
        resolved(b) == b,
{
    let root = seq![PartView::Root];
    let rest = b.skip(1);
    assert(b =~= root + rest);
    lemma_resolve_concat(Seq::empty(), root, rest);
    assert(root.drop_last() =~= Seq::<PartView>::empty());
    assert(resolve_from(Seq::<PartView>::empty(), Seq::<PartView>::empty()) == Seq::<PartView>::empty());
    assert(resolve_from(Seq::empty(), root) =~= root);
    assert forall|i: int| 0 <= i < rest.len() implies #[trigger] rest[i] is Normal by {
        assert(rest[i] == b[i + 1]);
    }
    lemma_resolve_names(root, rest);
}

/// A relative hint leads back to its file: for canonical absolute paths
/// `base` and `target`, the components of `base` joined with
/// `relative_to(base, target)`, with ".." resolved, are those of `target`.
pub proof fn lemma_relative_hint_leads_back(base: Seq<char>, target: Seq<char>)
    requires
        base.len() > 0 && base[0] == '/',
        target.len() > 0 && target[0] == '/',
        canonical(components(base)),
        canonical(components(target)),
    ensures
        resolved(components(join_spec(base, relative_to_spec(base, target)))) == components(target),
{
    let b = components(base);
    let t = components(target);
    lemma_common_prefix_props(b, t);
    let common = common_prefix_len(b, t);
    assert(common >= 1) by {
        assert(b[0] == t[0]);
    }
    let ups = (b.len() - common) as nat;
    let tail = t.skip(common as int);
    let parents = Seq::new(ups, |_i: int| PartView::Parent);
    let r = relative_to_spec(base, target);
    assert(r == climb_then(ups, tail));
    lemma_tail_clean(target, common);
    lemma_hint_pieces(ups, tail);
    lemma_join_components(base, r);
    assert(components(join_spec(base, r)) == b + (parents + tail));
    lemma_resolve_concat(Seq::empty(), b, parents + tail);
    lemma_resolve_canonical(b);
    lemma_resolve_concat(b, parents, tail);
    lemma_resolve_climb(b, ups);
    assert(b.take(common as int) =~= t.take(common as int));
    lemma_resolve_names(t.take(common as int), tail);
    assert(t.take(common as int) + tail =~= t);
}

proof fn lemma_flat_dotdots(n: nat)
    ensures
        flat_pieces(Seq::new(n, |_i: int| seq!['.', '.'])) == Seq::new(n, |_i: int| PartView::Parent),
    decreases n,
{
    if n > 0 {
        lemma_flat_dotdots((n - 1) as nat);
        assert(Seq::new(n, |_i: int| seq!['.', '.']).drop_last() =~= Seq::new(
            (n - 1) as nat,
            |_i: int| seq!['.', '.'],
        ));
        assert(Seq::new(n, |_i: int| PartView::Parent) =~= Seq::new(
            (n - 1) as nat,
            |_i: int| PartView::Parent,
        ) + seq![PartView::Parent]);
    }
}

proof fn lemma_flat_names(ns: Seq<PartView>)
    requires
        forall|i: int| 0 <= i < ns.len() ==> #[trigger] ns[i] is Normal && clean_name(ns[i]->Normal_0),
    ensures
        flat_pieces(part_texts(ns)) == ns,
    decreases ns.len(),
{
    if ns.len() > 0 {
        let a = ns.drop_last();
        assert forall|i: int| 0 <= i < a.len() implies #[trigger] a[i] is Normal && clean_name(a[i]->Normal_0) by {
            assert(a[i] == ns[i]);
        }
        lemma_flat_names(a);
        assert(part_texts(ns).drop_last() =~= part_texts(a));
        assert(part_texts(ns).last() == part_text(ns.last()));
        assert(ns.last() == ns[ns.len() - 1]);
        assert(ns =~= a.push(ns.last()));
    }
}

/// A non-empty join starts with the first non-empty piece's first character
/// when the first piece is non-empty.
proof fn lemma_join_first(ws: Seq<Seq<char>>)
    requires
        ws.len() > 0,
        ws[0].len() > 0,
    ensures
        join_slash(ws).len() > 0,
        join_slash(ws)[0] == ws[0][0],
    decreases ws.len(),
{
    if ws.len() > 1 {
        assert(ws.drop_last()[0] == ws[0]);
        lemma_join_first(ws.drop_last());
    }
}

} // verus!

//! Ranking candidates by fuzzy-match score: the matched candidates, best
//! score first, ties kept in the order given (a stable sort on the
//! descending score).

use vstd::prelude::*;

verus! {

/// Candidate `a` comes before candidate `b`: a higher score, or the same
/// score and an earlier position.
pub open spec fn ranks_before(scores: Seq<Option<i64>>, a: int, b: int) -> bool {
    let sa = scores[a]->0;
    let sb = scores[b]->0;
    sa > sb || (sa == sb && a < b)
}

/// `order` lists exactly the candidates that matched (those with a score),
/// each once, best score first and ties in the order given.
pub open spec fn is_ranking(scores: Seq<Option<i64>>, order: Seq<int>) -> bool {
    &&& forall|i: int|
        0 <= i < order.len() ==> 0 <= #[trigger] order[i] < scores.len() && scores[order[i]] is Some
    &&& forall|k: int|
        0 <= k < scores.len() && #[trigger] scores[k] is Some ==> exists|i: int|
            0 <= i < order.len() && #[trigger] order[i] == k
    &&& forall|i: int, j: int|
        0 <= i < j < order.len() ==> ranks_before(scores, #[trigger] order[i], #[trigger] order[j])
}

/// The candidates ranked by score: the positions of those with a score,
/// best first, ties in the order given.
pub fn rank_by_score(scores: &Vec<Option<i64>>) -> (order: Vec<usize>)
    ensures
        is_ranking(scores@, order@.map_values(|i: usize| i as int)),
{
    let ghost sc = scores@;
    let mut out: Vec<usize> = Vec::new();
    let mut k: usize = 0;
    while k < scores.len()
        invariant
            k <= scores@.len(),
            sc == scores@,
            forall|i: int| 0 <= i < out@.len() ==> #[trigger] out@[i] < k && sc[out@[i] as int] is Some,
            forall|m: int|
                0 <= m < k && #[trigger] sc[m] is Some ==> exists|i: int|
                    0 <= i < out@.len() && #[trigger] out@[i] == m,
            forall|i: int, j: int|
                0 <= i < j < out@.len() ==> ranks_before(
                    sc,
                    #[trigger] out@[i] as int,
                    #[trigger] out@[j] as int,
                ),
        decreases scores.len() - k,
    {
        match scores[k] {
            None => {},
            Some(s) => {
                let mut p: usize = 0;
                while p < out.len() && scores[out[p]].unwrap() >= s
                    invariant
                        p <= out@.len(),
                        k < scores@.len(),
                        sc == scores@,
                        sc[k as int] == Some(s),
                        forall|i: int| 0 <= i < out@.len() ==> #[trigger] out@[i] < k && sc[out@[i] as int] is Some,
                        forall|i: int| 0 <= i < p ==> (#[trigger] sc[out@[i] as int])->0 >= s,
                    decreases out.len() - p,
                {
                    p = p + 1;
                }
                let ghost before = out@;
                proof {
                    assert forall|i: int| p <= i < before.len() implies (#[trigger] sc[before[i] as int])->0 < s by {
                        if i > p {
                            assert(ranks_before(sc, before[p as int] as int, before[i] as int));
                        }
                    }
                }
                out.insert(p, k);
                proof {
                    assert forall|i: int, j: int| 0 <= i < j < out@.len() implies ranks_before(
                        sc,
                        #[trigger] out@[i] as int,
                        #[trigger] out@[j] as int,
                    ) by {
                        if j < p {
                            assert(out@[i] == before[i] && out@[j] == before[j]);
                        } else if j == p {
                            assert(out@[i] == before[i]);
                        } else if i < p {
                            assert(out@[i] == before[i] && out@[j] == before[j - 1]);
                        } else if i == p {
                            assert(out@[j] == before[j - 1]);
                        } else {
                            assert(out@[i] == before[i - 1] && out@[j] == before[j - 1]);
                        }
                    }
                    assert forall|m: int| 0 <= m < k + 1 && #[trigger] sc[m] is Some implies exists|i: int|
                        0 <= i < out@.len() && #[trigger] out@[i] == m by {
                        if m == k {
                            assert(out@[p as int] == m);
                        } else {
                            let i = choose|i: int| 0 <= i < before.len() && #[trigger] before[i] == m;
                            if i < p {
                                assert(out@[i] == m);
                            } else {
                                assert(out@[i + 1] == m);
                            }
                        }
                    }
                    assert forall|i: int| 0 <= i < out@.len() implies #[trigger] out@[i] < k + 1 && sc[out@[i] as int] is Some by {
                        if i < p {
                            assert(out@[i] == before[i]);
                        } else if i > p {
                            assert(out@[i] == before[i - 1]);
                        }
                    }
                }
            },
        }
        k = k + 1;
    }
    proof {
        let o = out@.map_values(|i: usize| i as int);
        assert forall|m: int| 0 <= m < sc.len() && #[trigger] sc[m] is Some implies exists|i: int|
            0 <= i < o.len() && #[trigger] o[i] == m by {
            let i = choose|i: int| 0 <= i < out@.len() && #[trigger] out@[i] == m;
            assert(o[i] == m);
        }
    }
    out
}

/// The ranking is determined by the scores: two orders that both rank the
/// same scores are the same order.
pub proof fn lemma_ranking_unique(scores: Seq<Option<i64>>, a: Seq<int>, b: Seq<int>)
    requires
        is_ranking(scores, a),
        is_ranking(scores, b),
    ensures
        a == b,
    decreases a.len() + b.len(),
{
    if a.len() == 0 {
        if b.len() > 0 {
            let k = b[0];
            assert(scores[k] is Some);
        }
        assert(a =~= b);
    } else if b.len() == 0 {
        let k = a[0];
        assert(scores[k] is Some);
    } else {
        // The first of each is the candidate that ranks before every other.
        let x = a[0];
        let y = b[0];
        assert(scores[x] is Some);
        assert(scores[y] is Some);
        let ib = choose|i: int| 0 <= i < b.len() && #[trigger] b[i] == x;
        let ia = choose|i: int| 0 <= i < a.len() && #[trigger] a[i] == y;
        if x != y {
            assert(ib > 0);
            assert(ia > 0);
            assert(ranks_before(scores, y, x));
            assert(ranks_before(scores, x, y));
            assert(false);
        }
        // Drop the shared first candidate from both and from the scores.
        let s2 = scores.update(x, None);
        let a2 = a.drop_first();
        let b2 = b.drop_first();
        assert forall|i: int| 0 <= i < a2.len() implies 0 <= #[trigger] a2[i] < s2.len() && s2[a2[i]] is Some by {
            assert(a2[i] == a[i + 1]);
            assert(ranks_before(scores, a[0], a[i + 1]));
        }
        assert forall|i: int| 0 <= i < b2.len() implies 0 <= #[trigger] b2[i] < s2.len() && s2[b2[i]] is Some by {
            assert(b2[i] == b[i + 1]);
            assert(ranks_before(scores, b[0], b[i + 1]));
        }
        assert forall|k: int| 0 <= k < s2.len() && #[trigger] s2[k] is Some implies exists|i: int|
            0 <= i < a2.len() && #[trigger] a2[i] == k by {
            assert(scores[k] is Some);
            let i = choose|i: int| 0 <= i < a.len() && #[trigger] a[i] == k;
            assert(i != 0);
            assert(a2[i - 1] == k);
        }
        assert forall|k: int| 0 <= k < s2.len() && #[trigger] s2[k] is Some implies exists|i: int|
            0 <= i < b2.len() && #[trigger] b2[i] == k by {
            assert(scores[k] is Some);
            let i = choose|i: int| 0 <= i < b.len() && #[trigger] b[i] == k;
            assert(i != 0);
            assert(b2[i - 1] == k);
        }
        assert forall|i: int, j: int| 0 <= i < j < a2.len() implies ranks_before(s2, #[trigger] a2[i], #[trigger] a2[j]) by {
            assert(ranks_before(scores, a[i + 1], a[j + 1]));
        }
        assert forall|i: int, j: int| 0 <= i < j < b2.len() implies ranks_before(s2, #[trigger] b2[i], #[trigger] b2[j]) by {
            assert(ranks_before(scores, b[i + 1], b[j + 1]));
        }
        lemma_ranking_unique(s2, a2, b2);
        assert(a =~= b) by {
            assert forall|i: int| 0 <= i < a.len() implies a[i] == b[i] by {
                if i > 0 {
                    assert(a[i] == a2[i - 1]);
                    assert(b[i] == b2[i - 1]);
                }
            }
        }
    }
}


/// `a` sorts before `b` as text: by the first differing character, a proper
/// prefix first (the order of `str`, whose UTF-8 bytes order as the
/// characters do).
pub open spec fn text_lt(a: Seq<char>, b: Seq<char>) -> bool
    decreases a.len(),
{
    if a.len() == 0 {
        b.len() > 0
    } else if b.len() == 0 {
        false
    } else if a[0] != b[0] {
        a[0] < b[0]
    } else {
        text_lt(a.drop_first(), b.drop_first())
    }
}

/// `text_lt` is a strict total order.
pub proof fn lemma_text_lt_order(a: Seq<char>, b: Seq<char>, c: Seq<char>)
    ensures
        !text_lt(a, a),
        text_lt(a, b) || text_lt(b, a) || a == b,
        text_lt(a, b) && text_lt(b, c) ==> text_lt(a, c),
    decreases a.len(),
{
    if a.len() > 0 && b.len() > 0 && c.len() > 0 {
        lemma_text_lt_order(a.drop_first(), b.drop_first(), c.drop_first());
        if a[0] == b[0] && a.drop_first() == b.drop_first() {
            assert(a =~= seq![a[0]] + a.drop_first());
            assert(b =~= seq![b[0]] + b.drop_first());
        }
    } else if a.len() > 0 && b.len() > 0 {
        lemma_text_lt_order(a.drop_first(), b.drop_first(), b.drop_first());
        if a[0] == b[0] && a.drop_first() == b.drop_first() {
            assert(a =~= seq![a[0]] + a.drop_first());
            assert(b =~= seq![b[0]] + b.drop_first());
        }
    } else if a.len() > 0 {
        lemma_text_lt_order(a.drop_first(), a.drop_first(), a.drop_first());
    } else if b.len() == 0 {
        assert(a =~= b);
    }
}

/// Whether `a` sorts before `b` as text.
pub fn text_less(a: &[char], b: &[char]) -> (r: bool)
    ensures
        r == text_lt(a@, b@),
{
    let mut i: usize = 0;
    assert(a@.skip(0) =~= a@ && b@.skip(0) =~= b@);
    while i < a.len() && i < b.len() && a[i] == b[i]
        invariant
            i <= a@.len(),
            i <= b@.len(),
            text_lt(a@, b@) == text_lt(a@.skip(i as int), b@.skip(i as int)),
        decreases a.len() - i,
    {
        assert(a@.skip(i as int).drop_first() =~= a@.skip(i + 1));
        assert(b@.skip(i as int).drop_first() =~= b@.skip(i + 1));
        i = i + 1;
    }
    if i == a.len() {
        i < b.len()
    } else if i == b.len() {
        false
    } else {
        a[i] < b[i]
    }
}

/// Positions as integers.
pub open spec fn as_ints(o: Seq<usize>) -> Seq<int> {
    o.map_values(|i: usize| i as int)
}

/// `k` occurs in `order`.
pub open spec fn listed(order: Seq<int>, k: int) -> bool {
    exists|i: int| 0 <= i < order.len() && #[trigger] order[i] == k
}

/// Position `a` sorts before position `b` by key, ties by position.
pub open spec fn key_before(keys: Seq<Seq<char>>, a: int, b: int) -> bool {
    text_lt(keys[a], keys[b]) || (keys[a] == keys[b] && a < b)
}

/// `order` lists every position of `keys` once, sorted by key, ties in their
/// order given (a stable sort by key).
pub open spec fn is_key_order(keys: Seq<Seq<char>>, order: Seq<int>) -> bool {
    &&& order.len() == keys.len()
    &&& forall|i: int| 0 <= i < order.len() ==> 0 <= #[trigger] order[i] < keys.len()
    &&& forall|k: int| 0 <= k < keys.len() ==> #[trigger] listed(order, k)
    &&& forall|i: int, j: int|
        0 <= i < j < order.len() ==> key_before(keys, #[trigger] order[i], #[trigger] order[j])
}

/// The positions of `keys` in a stable sort by key.
pub fn sort_by_text(keys: &Vec<Vec<char>>) -> (order: Vec<usize>)
    ensures
        is_key_order(keys@.map_values(|k: Vec<char>| k@), as_ints(order@)),
{
    let ghost ks = keys@.map_values(|k: Vec<char>| k@);
    let mut out: Vec<usize> = Vec::new();
    let mut k: usize = 0;
    while k < keys.len()
        invariant
            k <= keys@.len(),
            ks == keys@.map_values(|k: Vec<char>| k@),
            out@.len() == k,
            forall|i: int| 0 <= i < out@.len() ==> #[trigger] out@[i] < k,
            forall|m: int| 0 <= m < k ==> #[trigger] listed(as_ints(out@), m),
            forall|i: int, j: int|
                0 <= i < j < out@.len() ==> key_before(
                    ks,
                    #[trigger] out@[i] as int,
                    #[trigger] out@[j] as int,
                ),
        decreases keys.len() - k,
    {
        let mut p: usize = 0;
        while p < out.len() && !text_less(&keys[k], &keys[out[p]])
            invariant
                p <= out@.len(),
                k < keys@.len(),
                ks == keys@.map_values(|k: Vec<char>| k@),
                forall|i: int| 0 <= i < out@.len() ==> #[trigger] out@[i] < k,
                forall|i: int| 0 <= i < p ==> !text_lt(ks[k as int], #[trigger] ks[out@[i] as int]),
            decreases out.len() - p,
        {
            p = p + 1;
        }
        let ghost before = out@;
        proof {
            assert forall|i: int| p <= i < before.len() implies text_lt(
                ks[k as int],
                #[trigger] ks[before[i] as int],
            ) by {
                let q = before[p as int] as int;
                let r = before[i] as int;
                if i > p {
                    assert(key_before(ks, q, r));
                    lemma_text_lt_order(ks[k as int], ks[q], ks[r]);
                }
            }
            assert forall|i: int| 0 <= i < p implies key_before(ks, #[trigger] before[i] as int, k as int) by {
                lemma_text_lt_order(ks[before[i] as int], ks[k as int], ks[k as int]);
            }
        }
        out.insert(p, k);
        proof {
            assert forall|i: int, j: int| 0 <= i < j < out@.len() implies key_before(
                ks,
                #[trigger] out@[i] as int,
                #[trigger] out@[j] as int,
            ) by {
                if j < p {
                    assert(out@[i] == before[i] && out@[j] == before[j]);
                } else if j == p {
                    assert(out@[i] == before[i]);
                } else if i < p {
                    assert(out@[i] == before[i] && out@[j] == before[j - 1]);
                } else if i == p {
                    assert(out@[j] == before[j - 1]);
                } else {
                    assert(out@[i] == before[i - 1] && out@[j] == before[j - 1]);
                }
            }
            let o = as_ints(out@);
            let ob = as_ints(before);
            assert forall|m: int| 0 <= m < k + 1 implies #[trigger] listed(o, m) by {
                if m == k {
                    assert(o[p as int] == m);
                } else {
                    assert(listed(ob, m));
                    let i = choose|i: int| 0 <= i < ob.len() && #[trigger] ob[i] == m;
                    if i < p {
                        assert(o[i] == m);
                    } else {
                        assert(o[i + 1] == m);
                    }
                }
            }
            assert forall|i: int| 0 <= i < out@.len() implies #[trigger] out@[i] < k + 1 by {
                if i < p {
                    assert(out@[i] == before[i]);
                } else if i > p {
                    assert(out@[i] == before[i - 1]);
                }
            }
        }
        k = k + 1;
    }
    out
}

} // verus!

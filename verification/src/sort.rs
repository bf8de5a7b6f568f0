//! The deterministic processing order: candidates are sorted
//! lexicographically by path bytes before the directory and file passes,
//! so every run handles the same tree in the same order.

use vstd::prelude::*;
use crate::paths::views;

verus! {

/// Lexicographic byte order: the usual dictionary order, a prefix coming
/// before every extension of it.
pub open spec fn lex_le(a: Seq<u8>, b: Seq<u8>) -> bool
    decreases a.len(),
{
    if a.len() == 0 {
        true
    } else if b.len() == 0 {
        false
    } else if a[0] < b[0] {
        true
    } else if a[0] > b[0] {
        false
    } else {
        lex_le(a.drop_first(), b.drop_first())
    }
}

/// A candidate list in processing order.
pub open spec fn sorted(s: Seq<Seq<u8>>) -> bool {
    forall|i: int, j: int| 0 <= i < j < s.len() ==> lex_le(#[trigger] s[i], #[trigger] s[j])
}

/// Any two byte strings compare one way or the other.
pub proof fn lemma_lex_le_total(a: Seq<u8>, b: Seq<u8>)
    ensures
        lex_le(a, b) || lex_le(b, a),
    decreases a.len(),
{
    if a.len() > 0 && b.len() > 0 && a[0] == b[0] {
        lemma_lex_le_total(a.drop_first(), b.drop_first());
    }
}

/// Lexicographic order is transitive.
pub proof fn lemma_lex_le_trans(a: Seq<u8>, b: Seq<u8>, c: Seq<u8>)
    requires
        lex_le(a, b),
        lex_le(b, c),
    ensures
        lex_le(a, c),
    decreases a.len(),
{
    if a.len() == 0 {
    } else if b.len() == 0 {
    } else if c.len() == 0 {
    } else {
        if a[0] == b[0] && b[0] == c[0] {
            lemma_lex_le_trans(a.drop_first(), b.drop_first(), c.drop_first());
        }
    }
}

/// Compare two paths in lexicographic byte order.
pub fn lex_le_exec(a: &Vec<u8>, b: &Vec<u8>) -> (r: bool)
    ensures
        r == lex_le(a@, b@),
{
    let mut i: usize = 0;
    proof {
        assert(a@.subrange(0, a@.len() as int) =~= a@);
        assert(b@.subrange(0, b@.len() as int) =~= b@);
    }
    while i < a.len() && i < b.len() && a[i] == b[i]
        invariant
            i <= a@.len(),
            i <= b@.len(),
            lex_le(a@, b@) == lex_le(
                a@.subrange(i as int, a@.len() as int),
                b@.subrange(i as int, b@.len() as int),
            ),
        decreases a@.len() - i,
    {
        proof {
            let ar = a@.subrange(i as int, a@.len() as int);
            let br = b@.subrange(i as int, b@.len() as int);
            assert(ar[0] == a@[i as int]);
            assert(br[0] == b@[i as int]);
            assert(ar.drop_first() =~= a@.subrange(i + 1 as int, a@.len() as int));
            assert(br.drop_first() =~= b@.subrange(i + 1 as int, b@.len() as int));
        }
        i = i + 1;
    }
    let ghost ar = a@.subrange(i as int, a@.len() as int);
    let ghost br = b@.subrange(i as int, b@.len() as int);
    if i == a.len() {
        proof {
            assert(ar.len() == 0);
        }
        true
    } else if i == b.len() {
        proof {
            assert(br.len() == 0 && ar.len() > 0);
        }
        false
    } else {
        proof {
            assert(ar[0] == a@[i as int]);
            assert(br[0] == b@[i as int]);
            assert(a@[i as int] != b@[i as int]);
        }
        a[i] < b[i]
    }
}

/// Sort the candidate list in place into lexicographic order, keeping
/// exactly the same paths.
pub fn sort_paths(v: &mut Vec<Vec<u8>>)
    ensures
        sorted(views(final(v)@)),
        views(final(v)@).to_multiset() == views(old(v)@).to_multiset(),
{
    broadcast use vstd::seq_lib::to_multiset_insert;
    broadcast use vstd::seq_lib::to_multiset_remove;
    broadcast use vstd::seq_lib::to_multiset_contains;
    broadcast use vstd::multiset::group_multiset_axioms;

    if v.len() <= 1 {
        return ;
    }
    let mut i: usize = 1;
    while i < v.len()
        invariant
            1 <= i <= v@.len(),
            sorted(views(v@).subrange(0, i as int)),
            views(v@).to_multiset() == views(old(v)@).to_multiset(),
        decreases v@.len() - i,
    {
        let mut p: usize = 0;
        while p < i && lex_le_exec(&v[p], &v[i])
            invariant
                p <= i < v@.len(),
                forall|k: int| 0 <= k < p ==> lex_le(#[trigger] views(v@)[k], views(v@)[i as int]),
            decreases i - p,
        {
            assert(views(v@)[p as int] == v@[p as int]@);
            p = p + 1;
        }
        let ghost s = views(v@);
        let ghost x = s[i as int];
        proof {
            if p < i {
                assert(!lex_le(s[p as int], x));
                lemma_lex_le_total(s[p as int], x);
                assert(lex_le(x, s[p as int]));
            }
        }
        let moved = v.remove(i);
        v.insert(p, moved);
        proof {
            let s2 = views(v@);
            assert(s2 =~= s.remove(i as int).insert(p as int, x)) by {
                assert(forall|k: int|
                    0 <= k < s2.len() ==> s2[k] == #[trigger] v@[k]@);
            }
            vstd::seq_lib::to_multiset_remove(s, i as int);
            vstd::seq_lib::to_multiset_insert(s.remove(i as int), p as int, x);
            assert(s2.to_multiset() == s.to_multiset().remove(x).insert(x));
            assert(s.contains(x)) by {
                assert(s[i as int] == x);
            }
            vstd::seq_lib::to_multiset_contains(s, x);
            assert(s.to_multiset().count(x) > 0);
            let pre = s.subrange(0, i as int);
            assert forall|m: int, n: int| 0 <= m < n < i implies lex_le(
                #[trigger] s[m],
                #[trigger] s[n],
            ) by {
                assert(pre[m] == s[m]);
                assert(pre[n] == s[n]);
                assert(lex_le(pre[m], pre[n]));
            }
            assert(s.to_multiset().remove(x).insert(x) =~= s.to_multiset());
            assert forall|m: int, n: int|
                0 <= m < n < i + 1 implies lex_le(#[trigger] s2[m], #[trigger] s2[n]) by {
                let sm = if m < p {
                    s[m]
                } else if m == p {
                    x
                } else {
                    s[m - 1]
                };
                let sn = if n < p {
                    s[n]
                } else if n == p {
                    x
                } else {
                    s[n - 1]
                };
                assert(s2[m] == sm);
                assert(s2[n] == sn);
                if n < p {
                    assert(lex_le(s[m], s[n]));
                } else if n == p {
                    assert(lex_le(s[m], x));
                } else {
                    if m < p {
                        assert(lex_le(s[m], s[n - 1]));
                    } else if m == p {
                        if p < i {
                            if n - 1 == p {
                                assert(lex_le(x, s[p as int]));
                            } else {
                                assert(lex_le(s[p as int], s[n - 1]));
                                lemma_lex_le_trans(x, s[p as int], s[n - 1]);
                            }
                        }
                    } else {
                        assert(lex_le(s[m - 1], s[n - 1]));
                    }
                }
            }
            assert(sorted(s2.subrange(0, i + 1 as int))) by {
                assert(forall|m: int, n: int|
                    0 <= m < n < i + 1 ==> lex_le(
                        #[trigger] s2.subrange(0, i + 1 as int)[m],
                        #[trigger] s2.subrange(0, i + 1 as int)[n],
                    ));
            }
        }
        i = i + 1;
    }
    assert(views(v@).subrange(0, v@.len() as int) =~= views(v@));
}

} // verus!

//! Exclusion filtering: a candidate is dropped when its path equals, or is
//! a descendant of, any configured exclude prefix. The match is aligned on
//! path-segment boundaries — either separator byte bounds a segment, and a
//! trailing separator on a prefix is ignored — so an excluded `/data` drops
//! `/data/sub` but never `/data2`.

use vstd::prelude::*;
use vstd::seq_lib::group_seq_properties;
use crate::paths::{is_separator, sep_eq, trim_separators_end, views, SEPARATOR, SLASH};

verus! {

/// `prefix` covers `path` when the prefix, its trailing separators
/// dropped, matches the path's leading bytes up to separator equivalence,
/// and the match ends at the end of `path` or just before a separator.
pub open spec fn covers(prefix: Seq<u8>, path: Seq<u8>) -> bool {
    let p = trim_separators_end(prefix);
    &&& p.len() <= path.len()
    &&& (forall|k: int| 0 <= k < p.len() ==> sep_eq(p[k], path[k]))
    &&& (path.len() == p.len() || is_separator(path[p.len() as int]))
}

/// A path is excluded when some configured prefix covers it.
pub open spec fn excluded(path: Seq<u8>, prefixes: Seq<Seq<u8>>) -> bool {
    exists|i: int| 0 <= i < prefixes.len() && covers(prefixes[i], path)
}

/// The predicate a candidate must meet to survive filtering.
pub open spec fn not_excluded_pred(prefixes: Seq<Seq<u8>>) -> spec_fn(Seq<u8>) -> bool {
    |p: Seq<u8>| !excluded(p, prefixes)
}

/// The candidates that survive exclusion filtering, in discovery order.
pub open spec fn surviving(cands: Seq<Seq<u8>>, prefixes: Seq<Seq<u8>>) -> Seq<Seq<u8>> {
    cands.filter(not_excluded_pred(prefixes))
}

/// Decide whether `prefix` covers `path` on a path-segment boundary.
pub fn covers_exec(prefix: &Vec<u8>, path: &Vec<u8>) -> (r: bool)
    ensures
        r == covers(prefix@, path@),
{
    // drop trailing separators from the prefix
    let mut e: usize = prefix.len();
    proof {
        assert(prefix@.subrange(0, prefix@.len() as int) =~= prefix@);
    }
    while e > 0 && (prefix[e - 1] == SEPARATOR || prefix[e - 1] == SLASH)
        invariant
            e <= prefix@.len(),
            trim_separators_end(prefix@) == trim_separators_end(
                prefix@.subrange(0, e as int),
            ),
        decreases e,
    {
        proof {
            let cur = prefix@.subrange(0, e as int);
            assert(cur.last() == prefix@[e - 1]);
            assert(cur.drop_last() =~= prefix@.subrange(0, e - 1 as int));
        }
        e = e - 1;
    }
    proof {
        let cur = prefix@.subrange(0, e as int);
        assert(trim_separators_end(cur) == cur);
        assert(trim_separators_end(prefix@) == prefix@.subrange(0, e as int));
    }
    if e > path.len() {
        return false;
    }
    if path.len() > e && !(path[e] == SEPARATOR || path[e] == SLASH) {
        return false;
    }
    let mut i: usize = 0;
    while i < e
        invariant
            i <= e <= path@.len(),
            e <= prefix@.len(),
            trim_separators_end(prefix@) == prefix@.subrange(0, e as int),
            forall|k: int| 0 <= k < i ==> sep_eq(prefix@[k], path@[k]),
        decreases e - i,
    {
        let pb = prefix[i];
        let qb = path[i];
        let same = pb == qb || ((pb == SEPARATOR || pb == SLASH) && (qb == SEPARATOR || qb
            == SLASH));
        if !same {
            assert(!sep_eq(trim_separators_end(prefix@)[i as int], path@[i as int]));
            return false;
        }
        i = i + 1;
    }
    assert(forall|k: int|
        0 <= k < e ==> sep_eq(trim_separators_end(prefix@)[k], path@[k]));
    true
}

/// Decide whether any configured exclude prefix covers the candidate path.
/// Every prefix is checked, short-circuiting on the first match.
pub fn is_excluded(path: &Vec<u8>, prefixes: &Vec<Vec<u8>>) -> (r: bool)
    ensures
        r == excluded(path@, views(prefixes@)),
{
    let mut i: usize = 0;
    while i < prefixes.len()
        invariant
            i <= prefixes@.len(),
            forall|k: int| 0 <= k < i ==> !covers(views(prefixes@)[k], path@),
        decreases prefixes@.len() - i,
    {
        if covers_exec(&prefixes[i], path) {
            assert(covers(views(prefixes@)[i as int], path@));
            return true;
        }
        i = i + 1;
    }
    false
}

/// Keep, in order, exactly the candidates that no exclude prefix covers.
pub fn filter_excluded(cands: &Vec<Vec<u8>>, prefixes: &Vec<Vec<u8>>) -> (kept: Vec<Vec<u8>>)
    ensures
        views(kept@) == surviving(views(cands@), views(prefixes@)),
{
    broadcast use group_seq_properties;

    let ghost pred = not_excluded_pred(views(prefixes@));
    let mut kept: Vec<Vec<u8>> = Vec::new();
    let mut i: usize = 0;
    while i < cands.len()
        invariant
            i <= cands@.len(),
            views(kept@) == views(cands@).subrange(0, i as int).filter(
                not_excluded_pred(views(prefixes@)),
            ),
        decreases cands@.len() - i,
    {
        let ghost pred = not_excluded_pred(views(prefixes@));
        let ghost pre = views(cands@).subrange(0, i as int);
        let ghost kept_pre = kept@;
        let c = crate::paths::copy_path(&cands[i]);
        proof {
            assert(c@ == views(cands@)[i as int]);
            assert(views(cands@).subrange(0, i + 1 as int) =~= pre + seq![c@]);
            Seq::filter_distributes_over_add(pre, seq![c@], pred);
            reveal_with_fuel(Seq::filter, 2);
            assert(seq![c@].drop_last() =~= Seq::<Seq<u8>>::empty());
            if pred(c@) {
                assert(seq![c@].filter(pred) =~= seq![c@]);
            } else {
                assert(seq![c@].filter(pred) =~= Seq::<Seq<u8>>::empty());
            }
        }
        if !is_excluded(&c, prefixes) {
            let ghost cv = c@;
            kept.push(c);
            proof {
                assert(kept@ == kept_pre.push(kept@[kept_pre.len() as int]));
                assert(views(kept@) =~= views(kept_pre).push(cv));
            }
        }
        assert(views(kept@) =~= views(cands@).subrange(0, i + 1 as int).filter(pred));
        i = i + 1;
    }
    assert(views(cands@).subrange(0, cands@.len() as int) =~= views(cands@));
    kept
}

/// Exclusion correctness: an excluded candidate is never present in the
/// filtered list, and a candidate that no prefix covers — for instance a
/// sibling sharing only a raw string prefix, not a segment boundary — is
/// retained.
pub proof fn lemma_exclusion_correct(cands: Seq<Seq<u8>>, prefixes: Seq<Seq<u8>>, p: Seq<u8>)
    ensures
        excluded(p, prefixes) ==> !surviving(cands, prefixes).contains(p),
        cands.contains(p) && !excluded(p, prefixes) ==> surviving(cands, prefixes).contains(p),
{
    broadcast use vstd::seq_lib::group_filter_ensures;

    let pred = not_excluded_pred(prefixes);
    if excluded(p, prefixes) && surviving(cands, prefixes).contains(p) {
        let i = choose|i: int|
            0 <= i < surviving(cands, prefixes).len() && surviving(cands, prefixes)[i] == p;
        assert(pred(surviving(cands, prefixes)[i]));
    }
    if cands.contains(p) && !excluded(p, prefixes) {
        let i = choose|i: int| 0 <= i < cands.len() && cands[i] == p;
        assert(cands.filter(pred).contains(cands[i]));
    }
}

} // verus!

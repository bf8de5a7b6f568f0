//! Directory materialization planning: for every directory candidate the
//! remapped target path is computed and queued for creation exactly when
//! it does not already exist, while the per-volume tally counts every
//! directory candidate whether or not anything is created.

use vstd::prelude::*;
use crate::paths::{remap, remapped, views, volume_key, volume_key_spec};
use crate::stats::saturate;
use crate::tally::VolumeTally;

verus! {

/// The target paths the materializer must create, in candidate order:
/// the remapped path of every directory whose target does not exist yet.
pub open spec fn dirs_to_create(dirs: Seq<Seq<u8>>, target_exists: Seq<bool>, base: Seq<u8>) -> Seq<
    Seq<u8>,
>
    decreases dirs.len(),
{
    if dirs.len() == 0 || target_exists.len() != dirs.len() {
        Seq::empty()
    } else {
        let pre = dirs_to_create(dirs.drop_last(), target_exists.drop_last(), base);
        if target_exists.last() {
            pre
        } else {
            pre.push(remapped(dirs.last(), base))
        }
    }
}

/// Number of directory candidates that lie on the volume with key `k`.
pub open spec fn volume_dirs(dirs: Seq<Seq<u8>>, k: u64) -> nat
    decreases dirs.len(),
{
    if dirs.len() == 0 {
        0
    } else {
        volume_dirs(dirs.drop_last(), k) + if volume_key_spec(dirs.last()) == k {
            1nat
        } else {
            0nat
        }
    }
}

/// Plan the directory pass: return the remapped target paths that must be
/// created, and count every directory candidate on its volume's tally —
/// one increment per candidate, independent of whether creation happens.
pub fn plan_directories(
    dirs: &Vec<Vec<u8>>,
    target_exists: &Vec<bool>,
    base: &Vec<u8>,
    tally: &mut VolumeTally,
) -> (to_create: Vec<Vec<u8>>)
    requires
        dirs@.len() == target_exists@.len(),
        forall|i: int| 0 <= i < dirs@.len() ==> #[trigger] dirs@[i]@.len() >= 2,
        old(tally).wf(),
    ensures
        final(tally).wf(),
        views(to_create@) == dirs_to_create(views(dirs@), target_exists@, base@),
        forall|k: u64|
            final(tally).count_of(k) == saturate(
                old(tally).count_of(k) + volume_dirs(views(dirs@), k),
            ),
{
    let mut out: Vec<Vec<u8>> = Vec::new();
    let mut i: usize = 0;
    while i < dirs.len()
        invariant
            i <= dirs@.len(),
            dirs@.len() == target_exists@.len(),
            forall|n: int| 0 <= n < dirs@.len() ==> #[trigger] dirs@[n]@.len() >= 2,
            tally.wf(),
            views(out@) == dirs_to_create(
                views(dirs@).subrange(0, i as int),
                target_exists@.subrange(0, i as int),
                base@,
            ),
            forall|k: u64|
                tally.count_of(k) == saturate(
                    old(tally).count_of(k) + volume_dirs(views(dirs@).subrange(0, i as int), k),
                ),
        decreases dirs@.len() - i,
    {
        let ghost pre_dirs = views(dirs@).subrange(0, i as int);
        let ghost pre_exists = target_exists@.subrange(0, i as int);
        let ghost nxt_dirs = views(dirs@).subrange(0, i + 1 as int);
        let ghost nxt_exists = target_exists@.subrange(0, i + 1 as int);
        proof {
            assert(nxt_dirs.drop_last() =~= pre_dirs);
            assert(nxt_exists.drop_last() =~= pre_exists);
            assert(nxt_dirs.last() == dirs@[i as int]@);
            assert(nxt_exists.last() == target_exists@[i as int]);
        }
        let vk = volume_key(&dirs[i]);
        tally.increment(vk);
        proof {
            assert forall|k: u64|
                tally.count_of(k) == saturate(
                    old(tally).count_of(k) + volume_dirs(nxt_dirs, k),
                ) by {
                if k == vk {
                    assert(volume_dirs(nxt_dirs, k) == volume_dirs(pre_dirs, k) + 1);
                } else {
                    assert(volume_dirs(nxt_dirs, k) == volume_dirs(pre_dirs, k));
                }
            }
        }
        if !target_exists[i] {
            // every directory candidate carries the minimal volume prefix,
            // so remapping cannot fail here
            let target = match remap(&dirs[i], base) {
                Ok(t) => t,
                Err(_) => vstd::pervasive::unreached(),
            };
            let ghost out_pre = out@;
            let ghost tv = target@;
            out.push(target);
            proof {
                assert(out@ == out_pre.push(out@[out_pre.len() as int]));
                assert(views(out@) =~= views(out_pre).push(tv));
            }
        }
        assert(views(out@) =~= dirs_to_create(nxt_dirs, nxt_exists, base@));
        i = i + 1;
    }
    proof {
        assert(views(dirs@).subrange(0, dirs@.len() as int) =~= views(dirs@));
        assert(target_exists@.subrange(0, target_exists@.len() as int) =~= target_exists@);
    }
    out
}

/// Directory materialization idempotence: when every target already
/// exists — the state right after a completed materialization pass — the
/// plan creates nothing; and because the tally counts candidates rather
/// than creations, two passes over the same candidates leave a volume's
/// tally at the saturated sum of both passes' candidate counts.
pub proof fn lemma_materialize_idempotent(
    dirs: Seq<Seq<u8>>,
    all_exist: Seq<bool>,
    base: Seq<u8>,
    prior: u64,
    k: u64,
)
    requires
        all_exist.len() == dirs.len(),
        forall|i: int| 0 <= i < all_exist.len() ==> all_exist[i],
    ensures
        dirs_to_create(dirs, all_exist, base) == Seq::<Seq<u8>>::empty(),
        saturate(saturate(prior + volume_dirs(dirs, k)) + volume_dirs(dirs, k)) == saturate(
            prior + 2 * volume_dirs(dirs, k),
        ),
    decreases dirs.len(),
{
    if dirs.len() > 0 {
        assert(forall|i: int|
            0 <= i < all_exist.len() - 1 ==> all_exist.drop_last()[i] == all_exist[i]);
        lemma_materialize_idempotent(dirs.drop_last(), all_exist.drop_last(), base, prior, k);
        assert(all_exist.last());
    }
}

} // verus!

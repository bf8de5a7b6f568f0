//! Per-volume bookkeeping: how many source directories were discovered on
//! each volume. Built during the directory pass, read only for reporting.

use vstd::prelude::*;
use vstd::pervasive::VecAdditionalExecFns;
use crate::stats::saturate;

verus! {

/// Mapping from integer volume key to a count of source directories,
/// held as two parallel vectors with unique keys.
pub struct VolumeTally {
    keys: Vec<u64>,
    counts: Vec<u64>,
}

impl VolumeTally {
    /// Well-formedness: one count per key, and no key twice.
    pub closed spec fn wf(self) -> bool {
        &&& self.keys@.len() == self.counts@.len()
        &&& forall|i: int, j: int|
            0 <= i < j < self.keys@.len() ==> self.keys@[i] != self.keys@[j]
    }

    /// Whether a volume key has been seen.
    pub closed spec fn tracks(self, k: u64) -> bool {
        self.keys@.contains(k)
    }

    /// The count recorded for a volume key; zero for a key never seen.
    pub closed spec fn count_of(self, k: u64) -> u64 {
        if self.keys@.contains(k) {
            self.counts@[choose|i: int| 0 <= i < self.keys@.len() && self.keys@[i] == k]
        } else {
            0
        }
    }

    /// Number of distinct volumes seen, for reporting.
    pub closed spec fn volume_count(self) -> nat {
        self.keys@.len()
    }

    /// The volume key at a reporting position.
    pub closed spec fn key_at(self, i: int) -> u64 {
        self.keys@[i]
    }

    /// A tally with no volume seen yet.
    pub fn new() -> (t: VolumeTally)
        ensures
            t.wf(),
            forall|k: u64| t.count_of(k) == 0,
            forall|k: u64| !t.tracks(k),
    {
        let t = VolumeTally { keys: Vec::new(), counts: Vec::new() };
        assert(forall|k: u64| !t.keys@.contains(k));
        t
    }

    /// Number of distinct volumes seen.
    pub fn volumes(&self) -> (n: usize)
        requires
            self.wf(),
        ensures
            n == self.volume_count(),
    {
        self.keys.len()
    }

    /// The volume key and count at a position, for reporting.
    pub fn entry_at(&self, i: usize) -> (e: (u64, u64))
        requires
            self.wf(),
            i < self.volume_count(),
        ensures
            e.0 == self.key_at(i as int),
            e.1 == self.count_of(self.key_at(i as int)),
    {
        proof {
            let k = self.keys@[i as int];
            assert(self.keys@.contains(k));
            let j = choose|j: int| 0 <= j < self.keys@.len() && self.keys@[j] == k;
            assert(j == i);
        }
        (self.keys[i], self.counts[i])
    }

    /// Position of a key, if seen.
    fn find_key(&self, k: u64) -> (r: Option<usize>)
        requires
            self.wf(),
        ensures
            r matches Some(i) ==> i < self.keys@.len() && self.keys@[i as int] == k,
            r is None ==> !self.keys@.contains(k),
    {
        let mut i: usize = 0;
        while i < self.keys.len()
            invariant
                i <= self.keys@.len(),
                forall|j: int| 0 <= j < i ==> self.keys@[j] != k,
            decreases self.keys@.len() - i,
        {
            if self.keys[i] == k {
                return Some(i);
            }
            i = i + 1;
        }
        None
    }

    /// Make a volume key known without counting anything, as happens when
    /// a source root announces its volume before any directory is seen.
    pub fn register(&mut self, k: u64)
        requires
            old(self).wf(),
        ensures
            final(self).wf(),
            final(self).tracks(k),
            forall|k2: u64| final(self).count_of(k2) == old(self).count_of(k2),
    {
        let found = self.find_key(k);
        match found {
            Some(_) => {},
            None => {
                let ghost pre = *self;
                self.keys.push(k);
                self.counts.push(0);
                proof {
                    Self::lemma_push_preserves(pre, *self, k, 0);
                    assert(self.count_of(k) == 0);
                }
            },
        }
    }

    /// Count one more source directory on a volume; a volume never seen
    /// before enters the tally with count one.
    pub fn increment(&mut self, k: u64)
        requires
            old(self).wf(),
        ensures
            final(self).wf(),
            final(self).tracks(k),
            final(self).count_of(k) == saturate(old(self).count_of(k) + 1),
            forall|k2: u64| k2 != k ==> final(self).count_of(k2) == old(self).count_of(k2),
    {
        let found = self.find_key(k);
        match found {
            Some(i) => {
                let ghost pre = *self;
                let c = self.counts[i];
                let next = if c < u64::MAX {
                    c + 1
                } else {
                    u64::MAX
                };
                self.counts.set(i, next);
                proof {
                    assert forall|k2: u64| pre.keys@.contains(k2) == self.keys@.contains(k2) by {}
                    let j = choose|j: int| 0 <= j < pre.keys@.len() && pre.keys@[j] == k;
                    assert(j == i);
                    assert(pre.count_of(k) == c);
                    assert(self.count_of(k) == next);
                    assert forall|k2: u64| k2 != k implies self.count_of(k2) == pre.count_of(
                        k2,
                    ) by {
                        if pre.keys@.contains(k2) {
                            let j2 = choose|j2: int|
                                0 <= j2 < pre.keys@.len() && pre.keys@[j2] == k2;
                            assert(j2 != i);
                            assert(self.counts@[j2] == pre.counts@[j2]);
                        }
                    }
                }
            },
            None => {
                let ghost pre = *self;
                self.keys.push(k);
                self.counts.push(1);
                proof {
                    Self::lemma_push_preserves(pre, *self, k, 1);
                    assert(pre.count_of(k) == 0);
                    assert(self.count_of(k) == 1);
                }
            },
        }
    }

    /// Pushing a fresh key with a count leaves every other key's count
    /// alone and records the new key's count.
    proof fn lemma_push_preserves(pre: VolumeTally, post: VolumeTally, k: u64, c: u64)
        requires
            pre.wf(),
            !pre.keys@.contains(k),
            post.keys@ == pre.keys@.push(k),
            post.counts@ == pre.counts@.push(c),
        ensures
            post.wf(),
            post.tracks(k),
            post.count_of(k) == c,
            forall|k2: u64| k2 != k ==> post.count_of(k2) == pre.count_of(k2),
    {
        let n = pre.keys@.len() as int;
        assert(forall|i: int| 0 <= i < n ==> pre.keys@[i] != k);
        assert(forall|i: int| 0 <= i < n ==> post.keys@[i] == pre.keys@[i]);
        assert(post.keys@[n] == k);
        assert(post.wf());
        assert(post.keys@.contains(k));
        let j = choose|j: int| 0 <= j < post.keys@.len() && post.keys@[j] == k;
        assert(j == n);
        assert(post.count_of(k) == c);
        assert forall|k2: u64| k2 != k implies post.count_of(k2) == pre.count_of(k2) by {
            if post.keys@.contains(k2) {
                let j2 = choose|j2: int| 0 <= j2 < post.keys@.len() && post.keys@[j2] == k2;
                assert(j2 != n);
                assert(pre.keys@[j2] == k2);
                assert(pre.keys@.contains(k2));
                let j3 = choose|j3: int| 0 <= j3 < pre.keys@.len() && pre.keys@[j3] == k2;
                assert(j3 == j2);
            } else {
                if pre.keys@.contains(k2) {
                    let j4 = choose|j4: int| 0 <= j4 < pre.keys@.len() && pre.keys@[j4] == k2;
                    assert(post.keys@[j4] == k2);
                    assert(post.keys@.contains(k2));
                }
            }
        }
    }
}

} // verus!

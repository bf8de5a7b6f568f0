//! Run statistics: the accumulator for files copied, bytes copied and
//! directories created, and the proof that per-entry copy failures stay
//! local — every outcome is accounted for and a failed copy never stops
//! the accounting of the others.

use vstd::prelude::*;

verus! {

/// Clamp a mathematical count into a `u64`.
pub open spec fn saturate(n: int) -> u64 {
    if n <= u64::MAX {
        n as u64
    } else {
        u64::MAX
    }
}

/// The outcome of one attempted file copy: the number of bytes written,
/// or a failure that was logged and skipped.
#[derive(Debug, PartialEq, Eq, Structural, Clone, Copy)]
pub enum CopyOutcome {
    Copied(u64),
    Failed,
}

/// Number of successful copies among the outcomes.
pub open spec fn copied_count(outcomes: Seq<CopyOutcome>) -> nat
    decreases outcomes.len(),
{
    if outcomes.len() == 0 {
        0
    } else {
        copied_count(outcomes.drop_last()) + if outcomes.last() is Copied {
            1nat
        } else {
            0nat
        }
    }
}

/// Number of failed copies among the outcomes.
pub open spec fn failed_count(outcomes: Seq<CopyOutcome>) -> nat
    decreases outcomes.len(),
{
    if outcomes.len() == 0 {
        0
    } else {
        failed_count(outcomes.drop_last()) + if outcomes.last() is Failed {
            1nat
        } else {
            0nat
        }
    }
}

/// Total bytes written by the successful copies.
pub open spec fn copied_bytes(outcomes: Seq<CopyOutcome>) -> nat
    decreases outcomes.len(),
{
    if outcomes.len() == 0 {
        0
    } else {
        copied_bytes(outcomes.drop_last()) + match outcomes.last() {
            CopyOutcome::Copied(n) => n as nat,
            CopyOutcome::Failed => 0nat,
        }
    }
}

/// Mutable accumulator for one mirror run.
#[derive(Debug, PartialEq, Eq, Structural, Clone, Copy)]
pub struct RunStats {
    pub files_copied: u64,
    pub bytes_copied: u64,
    pub dirs_created: u64,
}

impl RunStats {
    /// A fresh accumulator with every total at zero.
    pub fn new() -> (s: RunStats)
        ensures
            s.files_copied == 0,
            s.bytes_copied == 0,
            s.dirs_created == 0,
    {
        RunStats { files_copied: 0, bytes_copied: 0, dirs_created: 0 }
    }

    /// Account for one attempted copy: a success adds its bytes and one
    /// file, a failure adds nothing; either way the run goes on.
    pub fn record_outcome(&mut self, outcome: &CopyOutcome)
        ensures
            final(self).files_copied == saturate(
                old(self).files_copied + if *outcome is Copied {
                    1int
                } else {
                    0int
                },
            ),
            final(self).bytes_copied == saturate(
                old(self).bytes_copied + match *outcome {
                    CopyOutcome::Copied(n) => n as int,
                    CopyOutcome::Failed => 0int,
                },
            ),
            final(self).dirs_created == old(self).dirs_created,
    {
        match outcome {
            CopyOutcome::Copied(n) => {
                if self.files_copied < u64::MAX {
                    self.files_copied = self.files_copied + 1;
                }
                if self.bytes_copied <= u64::MAX - *n {
                    self.bytes_copied = self.bytes_copied + *n;
                } else {
                    self.bytes_copied = u64::MAX;
                }
            },
            CopyOutcome::Failed => {},
        }
    }

    /// Account for one directory the materializer actually created.
    pub fn record_dir_created(&mut self)
        ensures
            final(self).dirs_created == saturate(old(self).dirs_created + 1),
            final(self).files_copied == old(self).files_copied,
            final(self).bytes_copied == old(self).bytes_copied,
    {
        if self.dirs_created < u64::MAX {
            self.dirs_created = self.dirs_created + 1;
        }
    }
}

/// Account for a whole sequence of copy outcomes. Every outcome is
/// consumed — a failure never aborts the accounting — so a run with
/// failures still reaches its summary with the surviving totals.
pub fn apply_outcomes(stats: &mut RunStats, outcomes: &Vec<CopyOutcome>)
    ensures
        final(stats).files_copied == saturate(
            old(stats).files_copied + copied_count(outcomes@),
        ),
        final(stats).bytes_copied == saturate(
            old(stats).bytes_copied + copied_bytes(outcomes@),
        ),
        final(stats).dirs_created == old(stats).dirs_created,
{
    let mut i: usize = 0;
    while i < outcomes.len()
        invariant
            i <= outcomes@.len(),
            stats.files_copied == saturate(
                old(stats).files_copied + copied_count(outcomes@.subrange(0, i as int)),
            ),
            stats.bytes_copied == saturate(
                old(stats).bytes_copied + copied_bytes(outcomes@.subrange(0, i as int)),
            ),
            stats.dirs_created == old(stats).dirs_created,
        decreases outcomes@.len() - i,
    {
        proof {
            let pre = outcomes@.subrange(0, i as int);
            let nxt = outcomes@.subrange(0, i + 1 as int);
            assert(nxt.drop_last() =~= pre);
            assert(nxt.last() == outcomes@[i as int]);
        }
        stats.record_outcome(&outcomes[i]);
        i = i + 1;
    }
    assert(outcomes@.subrange(0, outcomes@.len() as int) =~= outcomes@);
}

/// Every outcome is either a success or a failure, so the two counts
/// partition the list.
pub proof fn lemma_outcome_counts_partition(outcomes: Seq<CopyOutcome>)
    ensures
        copied_count(outcomes) + failed_count(outcomes) == outcomes.len(),
    decreases outcomes.len(),
{
    if outcomes.len() > 0 {
        lemma_outcome_counts_partition(outcomes.drop_last());
    }
}

/// Partial failure tolerance: one failed copy among the outcomes leaves
/// exactly one file unmirrored — the other candidates are all accounted
/// as successful copies.
pub proof fn lemma_partial_failure(outcomes: Seq<CopyOutcome>)
    requires
        failed_count(outcomes) == 1,
    ensures
        copied_count(outcomes) == outcomes.len() - 1,
{
    lemma_outcome_counts_partition(outcomes);
}

} // verus!

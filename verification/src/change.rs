//! Change detection: the copy / skip / overwrite decision for a file
//! candidate, based on metadata snapshots of the source file and of its
//! remapped target counterpart.
//!
//! The equality test for "changed" is deliberately coarse — last-write
//! time and size only, no content hash — a documented trade-off for an
//! incremental backup tool.

use vstd::prelude::*;

verus! {

/// The read-only bit of a file attribute word.
pub const ATTRIBUTE_READONLY: u32 = 1;

/// Metadata snapshot of one filesystem entry: attribute word, the three
/// timestamps and the size, as the metadata provider reports them.
#[derive(Debug, PartialEq, Eq, Structural, Clone, Copy)]
pub struct Snapshot {
    pub attrib: u32,
    pub creation: u64,
    pub access: u64,
    pub write: u64,
    pub size: u64,
}

/// The decision taken for one file candidate.
#[derive(Debug, PartialEq, Eq, Structural, Clone, Copy)]
pub enum FileAction {
    /// No entry exists at the target path: copy unconditionally.
    CopyNew,
    /// Source and target agree on last-write time and size: leave alone.
    SkipInSync,
    /// The target is stale and must be overwritten; when `clear_readonly`
    /// is set its read-only attribute must be cleared first.
    Overwrite { clear_readonly: bool },
}

/// The all-zero snapshot standing for "no metadata available".
pub open spec fn absent_snapshot() -> Snapshot {
    Snapshot { attrib: 0, creation: 0, access: 0, write: 0, size: 0 }
}

/// A target is in sync with its source when last-write time and size agree.
pub open spec fn in_sync(source: Snapshot, target: Snapshot) -> bool {
    source.write == target.write && source.size == target.size
}

/// Whether an attribute word carries the read-only bit.
pub open spec fn readonly(attrib: u32) -> bool {
    attrib & ATTRIBUTE_READONLY == ATTRIBUTE_READONLY
}

/// The decision for a file candidate: copy when the target is missing,
/// skip when it is in sync, otherwise overwrite — clearing the read-only
/// attribute first exactly when the target carries it.
pub open spec fn file_action(target_exists: bool, source: Snapshot, target: Snapshot) -> FileAction {
    if !target_exists {
        FileAction::CopyNew
    } else if in_sync(source, target) {
        FileAction::SkipInSync
    } else {
        FileAction::Overwrite { clear_readonly: readonly(target.attrib) }
    }
}

/// Whether an action copies bytes (anything but an in-sync skip).
pub open spec fn copies(a: FileAction) -> bool {
    !(a is SkipInSync)
}

/// Number of planned actions that copy a file.
pub open spec fn copy_count(actions: Seq<FileAction>) -> nat
    decreases actions.len(),
{
    if actions.len() == 0 {
        0
    } else {
        copy_count(actions.drop_last()) + if copies(actions.last()) {
            1nat
        } else {
            0nat
        }
    }
}

/// Soft-default fallback: a failed metadata fetch is treated as "entry
/// absent", with every field zeroed, so a transient failure re-copies
/// rather than skips.
pub fn effective_snapshot(fetched: Option<Snapshot>) -> (s: Snapshot)
    ensures
        fetched matches Some(m) ==> s == m,
        fetched is None ==> s == absent_snapshot(),
{
    match fetched {
        Some(m) => m,
        None => Snapshot { attrib: 0, creation: 0, access: 0, write: 0, size: 0 },
    }
}

/// Decide what to do with one file candidate, from the existence of its
/// target and the two metadata snapshots.
pub fn plan_file(target_exists: bool, source: &Snapshot, target: &Snapshot) -> (a: FileAction)
    ensures
        a == file_action(target_exists, *source, *target),
{
    if !target_exists {
        FileAction::CopyNew
    } else if source.write == target.write && source.size == target.size {
        FileAction::SkipInSync
    } else {
        FileAction::Overwrite { clear_readonly: target.attrib & ATTRIBUTE_READONLY == ATTRIBUTE_READONLY }
    }
}

/// Whether a stale target may actually be overwritten: always when no
/// read-only clearing was needed, and otherwise only when the clearing
/// succeeded — a protected file that could not be unprotected is skipped
/// for this run, never silently overwritten.
pub fn overwrite_proceeds(clear_needed: bool, clear_succeeded: bool) -> (b: bool)
    ensures
        b == (!clear_needed || clear_succeeded),
{
    !clear_needed || clear_succeeded
}

/// Decide all file candidates of a run at once, in candidate order.
pub fn plan_files(
    target_exists: &Vec<bool>,
    sources: &Vec<Snapshot>,
    targets: &Vec<Snapshot>,
) -> (actions: Vec<FileAction>)
    requires
        target_exists@.len() == sources@.len(),
        target_exists@.len() == targets@.len(),
    ensures
        actions@.len() == target_exists@.len(),
        forall|i: int|
            0 <= i < actions@.len() ==> actions@[i] == file_action(
                target_exists@[i],
                sources@[i],
                targets@[i],
            ),
{
    let mut actions: Vec<FileAction> = Vec::new();
    let mut i: usize = 0;
    while i < target_exists.len()
        invariant
            i <= target_exists@.len(),
            target_exists@.len() == sources@.len(),
            target_exists@.len() == targets@.len(),
            actions@.len() == i,
            forall|k: int|
                0 <= k < i ==> actions@[k] == file_action(
                    target_exists@[k],
                    sources@[k],
                    targets@[k],
                ),
        decreases target_exists@.len() - i,
    {
        let a = plan_file(target_exists[i], &sources[i], &targets[i]);
        actions.push(a);
        i = i + 1;
    }
    actions
}

/// Idempotence of the mirror: when every candidate's target already exists
/// and is in sync with its source — the state an unchanged source tree is
/// in right after a completed run — the planned actions copy zero files.
pub proof fn lemma_unchanged_source_copies_nothing(
    target_exists: Seq<bool>,
    sources: Seq<Snapshot>,
    targets: Seq<Snapshot>,
    actions: Seq<FileAction>,
)
    requires
        actions.len() == target_exists.len(),
        actions.len() == sources.len(),
        actions.len() == targets.len(),
        forall|i: int|
            0 <= i < actions.len() ==> actions[i] == file_action(
                target_exists[i],
                sources[i],
                targets[i],
            ),
        forall|i: int|
            0 <= i < actions.len() ==> target_exists[i] && in_sync(sources[i], targets[i]),
    ensures
        copy_count(actions) == 0,
    decreases actions.len(),
{
    if actions.len() > 0 {
        let n = actions.len() as int;
        assert(forall|i: int| 0 <= i < n - 1 ==> actions.drop_last()[i] == actions[i]);
        assert(forall|i: int| 0 <= i < n - 1 ==> target_exists.drop_last()[i] == target_exists[i]);
        assert(forall|i: int| 0 <= i < n - 1 ==> sources.drop_last()[i] == sources[i]);
        assert(forall|i: int| 0 <= i < n - 1 ==> targets.drop_last()[i] == targets[i]);
        lemma_unchanged_source_copies_nothing(
            target_exists.drop_last(),
            sources.drop_last(),
            targets.drop_last(),
            actions.drop_last(),
        );
        assert(actions.last() == file_action(
            target_exists.last(),
            sources.last(),
            targets.last(),
        ));
    }
}

} // verus!

use sfbp::change::{
    effective_snapshot, overwrite_proceeds, plan_file, plan_files, FileAction, Snapshot,
};
use sfbp::stats::{apply_outcomes, CopyOutcome, RunStats};

fn snap(attrib: u32, write: u64, size: u64) -> Snapshot {
    Snapshot { attrib, creation: 1, access: 2, write, size }
}

#[test]
fn identical_snapshot_skips() {
    let source = snap(0, 1000, 100);
    let target = snap(0, 1000, 100);
    assert_eq!(plan_file(true, &source, &target), FileAction::SkipInSync);
}

#[test]
fn different_mtime_overwrites() {
    let source = snap(0, 1000, 100);
    let target = snap(0, 2000, 100);
    assert_eq!(
        plan_file(true, &source, &target),
        FileAction::Overwrite { clear_readonly: false }
    );
}

#[test]
fn different_size_overwrites() {
    let source = snap(0, 1000, 100);
    let target = snap(0, 1000, 90);
    assert_eq!(
        plan_file(true, &source, &target),
        FileAction::Overwrite { clear_readonly: false }
    );
}

#[test]
fn absent_target_copies() {
    let source = snap(0, 1000, 100);
    let target = snap(0, 0, 0);
    assert_eq!(plan_file(false, &source, &target), FileAction::CopyNew);
}

#[test]
fn readonly_stale_target_needs_clearing() {
    let source = snap(0, 1000, 100);
    let target = snap(1, 2000, 100);
    assert_eq!(
        plan_file(true, &source, &target),
        FileAction::Overwrite { clear_readonly: true }
    );
    assert!(overwrite_proceeds(true, true));
    assert!(!overwrite_proceeds(true, false));
    assert!(overwrite_proceeds(false, false));
}

#[test]
fn metadata_failure_becomes_absent() {
    let s = effective_snapshot(None);
    assert_eq!(s, Snapshot { attrib: 0, creation: 0, access: 0, write: 0, size: 0 });
    let known = snap(3, 4, 5);
    assert_eq!(effective_snapshot(Some(known)), known);
}

#[test]
fn second_run_plans_no_copies() {
    // every target exists and is in sync: the planner skips them all
    let sources = vec![snap(0, 10, 1), snap(0, 20, 2), snap(0, 30, 3)];
    let targets = sources.clone();
    let exists = vec![true, true, true];
    let actions = plan_files(&exists, &sources, &targets);
    assert_eq!(actions, vec![FileAction::SkipInSync; 3]);
}

#[test]
fn one_failure_among_many_counts_the_rest() {
    let outcomes = vec![
        CopyOutcome::Copied(10),
        CopyOutcome::Failed,
        CopyOutcome::Copied(20),
        CopyOutcome::Copied(5),
    ];
    let mut stats = RunStats::new();
    apply_outcomes(&mut stats, &outcomes);
    assert_eq!(stats.files_copied, 3);
    assert_eq!(stats.bytes_copied, 35);
    assert_eq!(stats.dirs_created, 0);
}

#[test]
fn stats_accumulate_over_calls() {
    let mut stats = RunStats::new();
    stats.record_outcome(&CopyOutcome::Copied(7));
    stats.record_outcome(&CopyOutcome::Failed);
    stats.record_outcome(&CopyOutcome::Copied(3));
    stats.record_dir_created();
    stats.record_dir_created();
    assert_eq!(stats.files_copied, 2);
    assert_eq!(stats.bytes_copied, 10);
    assert_eq!(stats.dirs_created, 2);
}

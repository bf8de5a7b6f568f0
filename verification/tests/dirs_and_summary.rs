use sfbp::dirs::plan_directories;
use sfbp::summary::{checked_mean, display_hundredths, select_unit, ByteUnit};
use sfbp::tally::VolumeTally;

#[test]
fn directory_pass_creates_only_missing_targets() {
    let dirs = vec![b"C:\\a".to_vec(), b"C:\\a\\b".to_vec(), b"D:\\x".to_vec()];
    let exists = vec![true, false, false];
    let base = b"T:\\Backup".to_vec();
    let mut tally = VolumeTally::new();
    let to_create = plan_directories(&dirs, &exists, &base, &mut tally);
    assert_eq!(
        to_create,
        vec![b"T:\\BackupC\\a\\b".to_vec(), b"T:\\BackupD\\x".to_vec()]
    );
}

#[test]
fn second_directory_pass_creates_nothing_but_still_tallies() {
    let dirs = vec![b"C:\\a".to_vec(), b"C:\\b".to_vec(), b"D:\\x".to_vec()];
    let base = b"T:\\Backup".to_vec();
    let mut tally = VolumeTally::new();

    let first = plan_directories(&dirs, &vec![false, false, false], &base, &mut tally);
    assert_eq!(first.len(), 3);

    // after materialization every target exists: the second pass plans nothing
    let second = plan_directories(&dirs, &vec![true, true, true], &base, &mut tally);
    assert_eq!(second.len(), 0);

    // the tally counts candidates of both passes, not creations
    assert_eq!(tally.volumes(), 2);
    let c_key = (b'C' as u64) * 256 + (b':' as u64);
    let d_key = (b'D' as u64) * 256 + (b':' as u64);
    let mut seen = Vec::new();
    for i in 0..tally.volumes() {
        seen.push(tally.entry_at(i));
    }
    assert!(seen.contains(&(c_key, 4)));
    assert!(seen.contains(&(d_key, 2)));
}

#[test]
fn volume_registration_counts_nothing() {
    let mut tally = VolumeTally::new();
    let key = (b'C' as u64) * 256 + (b':' as u64);
    tally.register(key);
    tally.register(key);
    assert_eq!(tally.volumes(), 1);
    assert_eq!(tally.entry_at(0), (key, 0));
    tally.increment(key);
    assert_eq!(tally.entry_at(0), (key, 1));
}

#[test]
fn small_totals_report_in_bytes() {
    assert_eq!(select_unit(500), ByteUnit::Bytes);
    assert_eq!(display_hundredths(500), 50000);
}

#[test]
fn kilobyte_totals_report_in_kilobytes() {
    assert_eq!(select_unit(2048), ByteUnit::Kilobytes);
    // 2048 bytes display as 2.00 kilobytes
    assert_eq!(display_hundredths(2048), 200);
}

#[test]
fn megabyte_totals_report_in_megabytes() {
    let five_mega: u64 = 5 * 1024 * 1024;
    assert_eq!(select_unit(five_mega), ByteUnit::Megabytes);
    // 5 megabytes display as 5.00 megabytes
    assert_eq!(display_hundredths(five_mega), 500);
}

#[test]
fn huge_totals_report_in_gigabytes() {
    let three_giga: u64 = 3 * 1024 * 1024 * 1024;
    assert_eq!(select_unit(three_giga), ByteUnit::Gigabytes);
    assert_eq!(display_hundredths(three_giga), 300);
}

#[test]
fn unit_boundaries_are_inclusive() {
    assert_eq!(select_unit(1024), ByteUnit::Bytes);
    assert_eq!(select_unit(1025), ByteUnit::Kilobytes);
    assert_eq!(select_unit(1024 * 1024), ByteUnit::Kilobytes);
    assert_eq!(select_unit(1024 * 1024 + 1), ByteUnit::Megabytes);
}

#[test]
fn zero_files_have_no_mean() {
    assert_eq!(checked_mean(12345, 0), None);
    assert_eq!(checked_mean(0, 0), None);
}

#[test]
fn mean_file_size_divides() {
    assert_eq!(checked_mean(35, 3), Some(11));
    assert_eq!(checked_mean(100, 4), Some(25));
}

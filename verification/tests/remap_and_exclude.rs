use sfbp::exclude::{covers_exec, filter_excluded, is_excluded};
use sfbp::paths::{remap, volume_key, RemapError};

#[test]
fn remap_drops_volume_separator() {
    let src = b"V:\\a\\b".to_vec();
    let base = b"T:\\Backup".to_vec();
    let out = remap(&src, &base).unwrap();
    assert_eq!(out, b"T:\\BackupV\\a\\b".to_vec());
}

#[test]
fn remap_keeps_rest_unchanged() {
    let src = b"C:\\Users\\docs\\report.txt".to_vec();
    let base = b"E:\\Mirror\\".to_vec();
    let out = remap(&src, &base).unwrap();
    assert_eq!(out, b"E:\\Mirror\\C\\Users\\docs\\report.txt".to_vec());
}

#[test]
fn remap_rejects_short_paths() {
    let base = b"T:\\Backup".to_vec();
    assert_eq!(remap(&b"V".to_vec(), &base), Err(RemapError::SourceTooShort));
    assert_eq!(remap(&Vec::new(), &base), Err(RemapError::SourceTooShort));
}

#[test]
fn remap_of_bare_volume() {
    let src = b"V:".to_vec();
    let base = b"T:\\Backup".to_vec();
    assert_eq!(remap(&src, &base).unwrap(), b"T:\\BackupV".to_vec());
}

#[test]
fn volume_key_is_two_leading_bytes() {
    let p = b"C:\\data".to_vec();
    assert_eq!(volume_key(&p), (b'C' as u64) * 256 + (b':' as u64));
}

#[test]
fn exclusion_covers_equal_path() {
    let prefix = b"C:\\data".to_vec();
    let path = b"C:\\data".to_vec();
    assert!(covers_exec(&prefix, &path));
}

#[test]
fn exclusion_covers_descendant() {
    let prefix = b"C:\\data".to_vec();
    let path = b"C:\\data\\sub\\file".to_vec();
    assert!(covers_exec(&prefix, &path));
}

#[test]
fn exclusion_respects_segment_boundary() {
    let prefix = b"C:\\data".to_vec();
    let sibling = b"C:\\data2".to_vec();
    assert!(!covers_exec(&prefix, &sibling));
}

#[test]
fn filter_drops_excluded_keeps_sibling() {
    let cands = vec![
        b"C:\\data".to_vec(),
        b"C:\\data\\inner".to_vec(),
        b"C:\\data2".to_vec(),
        b"C:\\other".to_vec(),
    ];
    let prefixes = vec![b"C:\\data".to_vec()];
    let kept = filter_excluded(&cands, &prefixes);
    assert_eq!(kept, vec![b"C:\\data2".to_vec(), b"C:\\other".to_vec()]);
}

#[test]
fn exclusion_works_with_forward_slashes() {
    let cands = vec![
        b"/data".to_vec(),
        b"/data/sub/f.txt".to_vec(),
        b"/data2/g.txt".to_vec(),
    ];
    let prefixes = vec![b"/data".to_vec()];
    let kept = filter_excluded(&cands, &prefixes);
    assert_eq!(kept, vec![b"/data2/g.txt".to_vec()]);
}

#[test]
fn exclusion_ignores_trailing_separator_on_prefix() {
    let prefix = b"C:\\data\\".to_vec();
    assert!(covers_exec(&prefix, &b"C:\\data\\x".to_vec()));
    assert!(covers_exec(&prefix, &b"C:\\data".to_vec()));
    assert!(!covers_exec(&prefix, &b"C:\\data2".to_vec()));
}

#[test]
fn exclusion_matches_across_separator_styles() {
    let prefix = b"C:/data".to_vec();
    assert!(covers_exec(&prefix, &b"C:\\data\\x".to_vec()));
    assert!(covers_exec(&prefix, &b"C:/data/x".to_vec()));
    assert!(!covers_exec(&prefix, &b"C:\\database".to_vec()));
}

#[test]
fn is_excluded_checks_every_prefix() {
    let prefixes = vec![b"C:\\tmp".to_vec(), b"D:\\cache".to_vec()];
    assert!(is_excluded(&b"D:\\cache\\x".to_vec(), &prefixes));
    assert!(!is_excluded(&b"D:\\cachet".to_vec(), &prefixes));
    assert!(!is_excluded(&b"C:\\work".to_vec(), &prefixes));
}

use sfbp::config::{parse_parameter_lines, sub_bytes, trim, ConfigError};
use sfbp::names::{compose_log_file_name, find_byte, program_name, split_bytes, timestamped_log_file_name};
use sfbp::sort::{lex_le_exec, sort_paths};

fn lines(texts: &[&str]) -> Vec<Vec<u8>> {
    texts.iter().map(|t| t.as_bytes().to_vec()).collect()
}

#[test]
fn parse_reads_all_three_keys() {
    let input = lines(&[
        "# mirror parameters",
        "BackupSource = C:\\lists\\sources.txt",
        "ExcludeSource = C:\\lists\\excludes.txt",
        "BackupBaseLocation = T:\\Backup",
    ]);
    let cfg = parse_parameter_lines(&input).unwrap();
    assert_eq!(cfg.backup_source, b"C:\\lists\\sources.txt".to_vec());
    assert_eq!(cfg.exclude_source, b"C:\\lists\\excludes.txt".to_vec());
    assert_eq!(cfg.target_base, b"T:\\Backup".to_vec());
}

#[test]
fn parse_ignores_comments_and_unknown_keys() {
    let input = lines(&[
        "#BackupSource = C:\\hidden",
        "Color = blue",
        "BackupSource=C:\\s",
        "ExcludeSource=C:\\e",
        "BackupBaseLocation=T:\\b",
        "",
    ]);
    let cfg = parse_parameter_lines(&input).unwrap();
    assert_eq!(cfg.backup_source, b"C:\\s".to_vec());
}

#[test]
fn later_lines_win() {
    let input = lines(&[
        "BackupSource=C:\\old",
        "BackupSource=C:\\new",
        "ExcludeSource=C:\\e",
        "BackupBaseLocation=T:\\b",
    ]);
    let cfg = parse_parameter_lines(&input).unwrap();
    assert_eq!(cfg.backup_source, b"C:\\new".to_vec());
}

#[test]
fn missing_backup_source_is_fatal() {
    let input = lines(&["ExcludeSource=C:\\e", "BackupBaseLocation=T:\\b"]);
    assert_eq!(parse_parameter_lines(&input), Err(ConfigError::MissingBackupSource));
}

#[test]
fn missing_exclude_source_is_fatal() {
    let input = lines(&["BackupSource=C:\\s", "BackupBaseLocation=T:\\b"]);
    assert_eq!(parse_parameter_lines(&input), Err(ConfigError::MissingExcludeSource));
}

#[test]
fn missing_target_base_is_fatal() {
    let input = lines(&["BackupSource=C:\\s", "ExcludeSource=C:\\e"]);
    assert_eq!(parse_parameter_lines(&input), Err(ConfigError::MissingTargetBase));
}

#[test]
fn trim_strips_both_ends() {
    assert_eq!(trim(b"  hello\t ".to_vec()), b"hello".to_vec());
    assert_eq!(trim(b"\r\n".to_vec()), Vec::<u8>::new());
    assert_eq!(trim(b"x".to_vec()), b"x".to_vec());
}

#[test]
fn sub_bytes_copies_a_range() {
    let v = b"abcdef".to_vec();
    assert_eq!(sub_bytes(&v, 1, 4), b"bcd".to_vec());
}

#[test]
fn find_byte_finds_first() {
    assert_eq!(find_byte(&b"a.b.c".to_vec(), b'.'), Some(1));
    assert_eq!(find_byte(&b"abc".to_vec(), b'.'), None);
}

#[test]
fn split_keeps_empty_tokens() {
    let parts = split_bytes(&b"a\\\\b".to_vec(), b'\\');
    assert_eq!(parts, vec![b"a".to_vec(), Vec::new(), b"b".to_vec()]);
}

#[test]
fn program_name_takes_third_token_before_dot() {
    let arg = b"C:\\bin\\prog.exe".to_vec();
    assert_eq!(program_name(&arg), Some(b"prog".to_vec()));
}

#[test]
fn program_name_without_extension() {
    let arg = b"C:\\bin\\prog".to_vec();
    assert_eq!(program_name(&arg), Some(b"prog".to_vec()));
}

#[test]
fn program_name_needs_three_tokens() {
    assert_eq!(program_name(&b"prog.exe".to_vec()), None);
    assert_eq!(program_name(&b"C:\\prog.exe".to_vec()), None);
}

#[test]
fn log_file_name_composition() {
    let name = compose_log_file_name(
        &b"C:\\Logs\\".to_vec(),
        &b"my_program".to_vec(),
        &b"\\Log_".to_vec(),
        &b"20200101-070707".to_vec(),
    );
    assert_eq!(name, b"C:\\Logs\\my_program\\Log_20200101-070707.txt".to_vec());
}

#[test]
fn timestamped_log_file_name_has_fixed_frame() {
    let name = timestamped_log_file_name(
        &b"C:\\Logs\\".to_vec(),
        &b"prog".to_vec(),
        &b"\\Log_".to_vec(),
    );
    assert!(name.starts_with(b"C:\\Logs\\prog\\Log_"));
    assert!(name.ends_with(b".txt"));
}

#[test]
fn lexicographic_compare() {
    assert!(lex_le_exec(&b"a".to_vec(), &b"ab".to_vec()));
    assert!(!lex_le_exec(&b"ab".to_vec(), &b"a".to_vec()));
    assert!(lex_le_exec(&b"abc".to_vec(), &b"abd".to_vec()));
    assert!(lex_le_exec(&b"".to_vec(), &b"".to_vec()));
}

#[test]
fn sort_orders_candidates() {
    let mut v = vec![b"b".to_vec(), b"a\\x".to_vec(), b"a".to_vec(), b"ab".to_vec()];
    sort_paths(&mut v);
    assert_eq!(
        v,
        vec![b"a".to_vec(), b"a\\x".to_vec(), b"ab".to_vec(), b"b".to_vec()]
    );
}

#[test]
fn sort_keeps_duplicates() {
    let mut v = vec![b"c".to_vec(), b"a".to_vec(), b"c".to_vec()];
    sort_paths(&mut v);
    assert_eq!(v, vec![b"a".to_vec(), b"c".to_vec(), b"c".to_vec()]);
}

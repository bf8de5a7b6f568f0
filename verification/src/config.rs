//! Parameter parsing: a line-oriented key=value format with `#`-prefixed
//! comment lines and three mandatory keys — the source-list file, the
//! exclude-list file and the target base directory. The absence of any of
//! the three is a fatal startup error, reported before any copy work.

use vstd::prelude::*;
use crate::paths::views;

verus! {

/// The key naming the source-list file, as bytes: `BackupSource`.
pub const KEY_BACKUP_SOURCE: [u8; 12] = [66, 97, 99, 107, 117, 112, 83, 111, 117, 114, 99, 101];

/// The key naming the exclude-list file, as bytes: `ExcludeSource`.
pub const KEY_EXCLUDE_SOURCE: [u8; 13] = [
    69,
    120,
    99,
    108,
    117,
    100,
    101,
    83,
    111,
    117,
    114,
    99,
    101,
];

/// The key naming the target base directory, as bytes: `BackupBaseLocation`.
pub const KEY_TARGET_BASE: [u8; 18] = [
    66,
    97,
    99,
    107,
    117,
    112,
    66,
    97,
    115,
    101,
    76,
    111,
    99,
    97,
    116,
    105,
    111,
    110,
];

/// The byte starting a comment line (`#`).
pub const COMMENT: u8 = 35;

/// The key/value separator byte (`=`).
pub const EQUALS: u8 = 61;

/// Whitespace stripped around keys and values.
pub open spec fn is_blank(b: u8) -> bool {
    b == 32 || b == 9 || b == 13 || b == 10
}

/// A line's bytes with leading blanks removed.
pub open spec fn trim_start_spec(s: Seq<u8>) -> Seq<u8>
    decreases s.len(),
{
    if s.len() > 0 && is_blank(s[0]) {
        trim_start_spec(s.drop_first())
    } else {
        s
    }
}

/// A line's bytes with trailing blanks removed.
pub open spec fn trim_end_spec(s: Seq<u8>) -> Seq<u8>
    decreases s.len(),
{
    if s.len() > 0 && is_blank(s.last()) {
        trim_end_spec(s.drop_last())
    } else {
        s
    }
}

/// A line's bytes with blanks removed on both sides.
pub open spec fn trim_spec(s: Seq<u8>) -> Seq<u8> {
    trim_end_spec(trim_start_spec(s))
}

/// Index of the first `=` in a line, or -1 when there is none.
pub open spec fn first_eq(s: Seq<u8>) -> int
    decreases s.len(),
{
    if s.len() == 0 {
        -1
    } else if s[0] == EQUALS {
        0
    } else {
        let r = first_eq(s.drop_first());
        if r == -1 {
            -1
        } else {
            r + 1
        }
    }
}

/// A comment line: empty, or starting with `#`.
pub open spec fn is_comment(l: Seq<u8>) -> bool {
    l.len() == 0 || l[0] == COMMENT
}

/// The trimmed key of a line that holds an `=`.
pub open spec fn line_key(l: Seq<u8>) -> Seq<u8> {
    trim_spec(l.subrange(0, first_eq(l)))
}

/// The trimmed value of a line that holds an `=`.
pub open spec fn line_value(l: Seq<u8>) -> Seq<u8> {
    trim_spec(l.subrange(first_eq(l) + 1, l.len() as int))
}

/// The three configured locations, as byte-string paths.
#[derive(Debug, PartialEq, Eq)]
pub struct MirrorConfig {
    pub backup_source: Vec<u8>,
    pub exclude_source: Vec<u8>,
    pub target_base: Vec<u8>,
}

/// The mathematical view of a configuration.
pub struct ConfigView {
    pub backup_source: Seq<u8>,
    pub exclude_source: Seq<u8>,
    pub target_base: Seq<u8>,
}

impl View for MirrorConfig {
    type V = ConfigView;

    open spec fn view(&self) -> ConfigView {
        ConfigView {
            backup_source: self.backup_source@,
            exclude_source: self.exclude_source@,
            target_base: self.target_base@,
        }
    }
}

/// The configuration before any line is read: every location empty.
pub open spec fn empty_config() -> ConfigView {
    ConfigView {
        backup_source: Seq::empty(),
        exclude_source: Seq::empty(),
        target_base: Seq::empty(),
    }
}

/// What one line does to the configuration: comments and lines without an
/// `=` change nothing, a recognized key replaces its location with the
/// line's trimmed value, an unknown key changes nothing.
pub open spec fn apply_line(c: ConfigView, l: Seq<u8>) -> ConfigView {
    if is_comment(l) || first_eq(l) == -1 {
        c
    } else if line_key(l) == KEY_BACKUP_SOURCE@ {
        ConfigView { backup_source: line_value(l), ..c }
    } else if line_key(l) == KEY_EXCLUDE_SOURCE@ {
        ConfigView { exclude_source: line_value(l), ..c }
    } else if line_key(l) == KEY_TARGET_BASE@ {
        ConfigView { target_base: line_value(l), ..c }
    } else {
        c
    }
}

/// The configuration the parameter lines describe, later lines winning.
pub open spec fn parse_lines(lines: Seq<Seq<u8>>) -> ConfigView
    decreases lines.len(),
{
    if lines.len() == 0 {
        empty_config()
    } else {
        apply_line(parse_lines(lines.drop_last()), lines.last())
    }
}

/// Which mandatory parameter is missing, checked in a fixed order.
#[derive(Debug, PartialEq, Eq, Structural, Clone, Copy)]
pub enum ConfigError {
    MissingBackupSource,
    MissingExcludeSource,
    MissingTargetBase,
}

/// Strip blanks from both ends of a byte string.
pub fn trim(v: Vec<u8>) -> (r: Vec<u8>)
    ensures
        r@ == trim_spec(v@),
{
    let ghost orig = v@;
    let mut v = v;
    while v.len() > 0 && (v[0] == 32 || v[0] == 9 || v[0] == 13 || v[0] == 10)
        invariant
            trim_start_spec(orig) == trim_start_spec(v@),
        decreases v@.len(),
    {
        let ghost pre = v@;
        v.remove(0);
        proof {
            assert(v@ =~= pre.drop_first());
        }
    }
    assert(v@ == trim_start_spec(orig));
    let ghost mid = v@;
    while v.len() > 0 && (v[v.len() - 1] == 32 || v[v.len() - 1] == 9 || v[v.len() - 1] == 13
        || v[v.len() - 1] == 10)
        invariant
            trim_end_spec(mid) == trim_end_spec(v@),
        decreases v@.len(),
    {
        let ghost pre = v@;
        v.pop();
        proof {
            assert(v@ =~= pre.drop_last());
        }
    }
    assert(v@ == trim_end_spec(mid));
    v
}

/// Find the first `=` in a line.
pub fn find_equals(v: &Vec<u8>) -> (r: Option<usize>)
    ensures
        r matches Some(i) ==> first_eq(v@) == i && i < v@.len(),
        r is None ==> first_eq(v@) == -1,
{
    let mut i: usize = 0;
    while i < v.len()
        invariant
            i <= v@.len(),
            forall|k: int| 0 <= k < i ==> v@[k] != EQUALS,
        decreases v@.len() - i,
    {
        if v[i] == EQUALS {
            proof {
                lemma_first_eq_char(v@, i as int);
            }
            return Some(i);
        }
        i = i + 1;
    }
    proof {
        lemma_first_eq_char(v@, v@.len() as int);
    }
    None
}

/// `first_eq` returns the position of the first `=`, and -1 when a line
/// has none.
proof fn lemma_first_eq_char(s: Seq<u8>, i: int)
    requires
        0 <= i <= s.len(),
        forall|k: int| 0 <= k < i ==> s[k] != EQUALS,
        i < s.len() ==> s[i] == EQUALS,
    ensures
        i == s.len() ==> first_eq(s) == -1,
        i < s.len() ==> first_eq(s) == i,
    decreases i + 1,
{
    if s.len() == 0 {
    } else if i == 0 {
    } else {
        assert(s[0] != EQUALS);
        let t = s.drop_first();
        assert(forall|k: int| 0 <= k < i - 1 ==> t[k] == s[k + 1]);
        assert(i - 1 < t.len() ==> t[i - 1] == s[i]);
        lemma_first_eq_char(t, i - 1);
    }
}

/// Copy a byte range of a line.
pub fn sub_bytes(v: &Vec<u8>, from: usize, to: usize) -> (r: Vec<u8>)
    requires
        from <= to <= v@.len(),
    ensures
        r@ == v@.subrange(from as int, to as int),
{
    let mut out: Vec<u8> = Vec::new();
    let mut i: usize = from;
    while i < to
        invariant
            from <= i <= to <= v@.len(),
            out@ == v@.subrange(from as int, i as int),
        decreases to - i,
    {
        out.push(v[i]);
        assert(out@ =~= v@.subrange(from as int, i + 1 as int));
        i = i + 1;
    }
    out
}

/// Compare a byte string against a fixed key.
fn bytes_eq<const N: usize>(a: &Vec<u8>, key: &[u8; N]) -> (r: bool)
    ensures
        r == (a@ == key@),
{
    if a.len() != N {
        proof {
            assert(a@.len() != key@.len());
        }
        return false;
    }
    let mut i: usize = 0;
    while i < N
        invariant
            i <= N,
            a@.len() == key@.len() == N,
            forall|k: int| 0 <= k < i ==> a@[k] == key@[k],
        decreases N - i,
    {
        if a[i] != key[i] {
            return false;
        }
        i = i + 1;
    }
    proof {
        assert(a@ =~= key@);
    }
    true
}

/// Parse the parameter lines into a configuration, and reject a
/// configuration in which any of the three mandatory locations is left
/// empty — the first missing one, in the order source list, exclude list,
/// target base, names the error.
pub fn parse_parameter_lines(lines: &Vec<Vec<u8>>) -> (r: Result<MirrorConfig, ConfigError>)
    ensures
        r matches Ok(c) ==> c@ == parse_lines(views(lines@)),
        (r matches Err(e) && e == ConfigError::MissingBackupSource) <==> parse_lines(
            views(lines@),
        ).backup_source.len() == 0,
        (r matches Err(e) && e == ConfigError::MissingExcludeSource) <==> (parse_lines(
            views(lines@),
        ).backup_source.len() > 0 && parse_lines(views(lines@)).exclude_source.len() == 0),
        (r matches Err(e) && e == ConfigError::MissingTargetBase) <==> (parse_lines(
            views(lines@),
        ).backup_source.len() > 0 && parse_lines(views(lines@)).exclude_source.len() > 0
            && parse_lines(views(lines@)).target_base.len() == 0),
{
    let mut cfg = MirrorConfig {
        backup_source: Vec::new(),
        exclude_source: Vec::new(),
        target_base: Vec::new(),
    };
    assert(cfg@ =~= empty_config());
    let mut i: usize = 0;
    while i < lines.len()
        invariant
            i <= lines@.len(),
            cfg@ == parse_lines(views(lines@).subrange(0, i as int)),
        decreases lines@.len() - i,
    {
        let ghost pre = views(lines@).subrange(0, i as int);
        let ghost nxt = views(lines@).subrange(0, i + 1 as int);
        proof {
            assert(nxt.drop_last() =~= pre);
            assert(nxt.last() == lines@[i as int]@);
        }
        let line = &lines[i];
        let ghost lv = line@;
        if line.len() == 0 || line[0] == COMMENT {
            assert(is_comment(lv));
        } else {
            match find_equals(line) {
                None => {
                    assert(first_eq(lv) == -1);
                },
                Some(eq_pos) => {
                    let key = trim(sub_bytes(line, 0, eq_pos));
                    let value = trim(sub_bytes(line, eq_pos + 1, line.len()));
                    proof {
                        assert(key@ == line_key(lv));
                        assert(value@ == line_value(lv));
                        assert(!is_comment(lv) && first_eq(lv) != -1);
                    }
                    if bytes_eq(&key, &KEY_BACKUP_SOURCE) {
                        cfg.backup_source = value;
                    } else if bytes_eq(&key, &KEY_EXCLUDE_SOURCE) {
                        cfg.exclude_source = value;
                    } else if bytes_eq(&key, &KEY_TARGET_BASE) {
                        cfg.target_base = value;
                    }
                },
            }
        }
        assert(cfg@ =~= apply_line(parse_lines(pre), lv));
        i = i + 1;
    }
    assert(views(lines@).subrange(0, lines@.len() as int) =~= views(lines@));
    if cfg.backup_source.len() == 0 {
        Err(ConfigError::MissingBackupSource)
    } else if cfg.exclude_source.len() == 0 {
        Err(ConfigError::MissingExcludeSource)
    } else if cfg.target_base.len() == 0 {
        Err(ConfigError::MissingTargetBase)
    } else {
        Ok(cfg)
    }
}

} // verus!

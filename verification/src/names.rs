//! Housekeeping names: isolating the program name from the invocation
//! path, and composing the log file name from the log directory, the
//! program name, a prefix and a timestamp.

use vstd::prelude::*;
use crate::paths::{copy_path, views, SEPARATOR};
use crate::config::sub_bytes;

verus! {

/// The extension-separator byte (`.`).
pub const DOT: u8 = 46;

/// The log file suffix, as bytes: `.txt`.
pub const TXT_SUFFIX: [u8; 4] = [46, 116, 120, 116];

/// Index of the first occurrence of a byte, or -1 when it never occurs.
pub open spec fn first_index_of(s: Seq<u8>, b: u8) -> int
    decreases s.len(),
{
    if s.len() == 0 {
        -1
    } else if s[0] == b {
        0
    } else {
        let r = first_index_of(s.drop_first(), b);
        if r == -1 {
            -1
        } else {
            r + 1
        }
    }
}

/// A byte string split on a separator byte: the tokens between the
/// occurrences, boundaries included, so a trailing separator yields a
/// final empty token.
pub open spec fn split_at(s: Seq<u8>, sep: u8) -> Seq<Seq<u8>>
    decreases s.len(),
{
    let f = first_index_of(s, sep);
    if 0 <= f < s.len() {
        seq![s.subrange(0, f)] + split_at(s.subrange(f + 1, s.len() as int), sep)
    } else {
        seq![s]
    }
}

/// The program name hidden in an invocation path: the third
/// backslash-separated token, cut before its first dot; nothing when the
/// path has fewer than three tokens.
pub open spec fn program_name_spec(arg: Seq<u8>) -> Option<Seq<u8>> {
    let parts = split_at(arg, SEPARATOR);
    if parts.len() < 3 {
        None
    } else {
        let t = parts[2];
        let d = first_index_of(t, DOT);
        if d < 0 {
            Some(t)
        } else {
            Some(t.subrange(0, d))
        }
    }
}

/// The composed log file name: log directory, program name, prefix,
/// timestamp, `.txt`.
pub open spec fn log_name_spec(dir: Seq<u8>, prog: Seq<u8>, prefix: Seq<u8>, stamp: Seq<u8>) -> Seq<
    u8,
> {
    dir + prog + prefix + stamp + TXT_SUFFIX@
}

/// `first_index_of` answers the position of the first occurrence: a byte
/// found at `i` with none before it pins the value, and a byte that never
/// occurs pins -1.
proof fn lemma_first_index_char(s: Seq<u8>, b: u8, i: int)
    requires
        0 <= i <= s.len(),
        forall|k: int| 0 <= k < i ==> s[k] != b,
        i < s.len() ==> s[i] == b,
    ensures
        i == s.len() ==> first_index_of(s, b) == -1,
        i < s.len() ==> first_index_of(s, b) == i,
    decreases i + 1,
{
    if s.len() == 0 {
    } else if i == 0 {
    } else {
        assert(s[0] != b);
        let t = s.drop_first();
        assert(forall|k: int| 0 <= k < i - 1 ==> t[k] == s[k + 1]);
        assert(i - 1 < t.len() ==> t[i - 1] == s[i]);
        lemma_first_index_char(t, b, i - 1);
    }
}

/// Find the first occurrence of a byte.
pub fn find_byte(v: &Vec<u8>, b: u8) -> (r: Option<usize>)
    ensures
        r matches Some(i) ==> first_index_of(v@, b) == i && i < v@.len(),
        r is None ==> first_index_of(v@, b) == -1,
{
    let mut i: usize = 0;
    while i < v.len()
        invariant
            i <= v@.len(),
            forall|k: int| 0 <= k < i ==> v@[k] != b,
        decreases v@.len() - i,
    {
        if v[i] == b {
            proof {
                lemma_first_index_char(v@, b, i as int);
            }
            return Some(i);
        }
        i = i + 1;
    }
    proof {
        lemma_first_index_char(v@, b, v@.len() as int);
    }
    None
}

/// Split a byte string on a separator byte.
pub fn split_bytes(v: &Vec<u8>, sep: u8) -> (parts: Vec<Vec<u8>>)
    ensures
        views(parts@) == split_at(v@, sep),
{
    let mut parts: Vec<Vec<u8>> = Vec::new();
    let mut start: usize = 0;
    let mut i: usize = 0;
    proof {
        assert(v@.subrange(0, v@.len() as int) =~= v@);
        assert(views(parts@) =~= Seq::<Seq<u8>>::empty());
        assert(views(parts@) + split_at(v@, sep) =~= split_at(v@, sep));
    }
    while i < v.len()
        invariant
            start <= i <= v@.len(),
            split_at(v@, sep) == views(parts@) + split_at(
                v@.subrange(start as int, v@.len() as int),
                sep,
            ),
            forall|k: int| start <= k < i ==> v@[k] != sep,
        decreases v@.len() - i,
    {
        if v[i] == sep {
            let ghost rest = v@.subrange(start as int, v@.len() as int);
            let ghost j = i - start as int;
            proof {
                assert(forall|k: int| 0 <= k < rest.len() ==> rest[k] == v@[start + k]);
                lemma_first_index_char(rest, sep, j);
                assert(first_index_of(rest, sep) == j);
                assert(rest.subrange(0, j) =~= v@.subrange(start as int, i as int));
                assert(rest.subrange(j + 1, rest.len() as int) =~= v@.subrange(
                    i + 1 as int,
                    v@.len() as int,
                ));
                assert(split_at(rest, sep) == seq![v@.subrange(start as int, i as int)]
                    + split_at(v@.subrange(i + 1 as int, v@.len() as int), sep));
            }
            let tok = sub_bytes(v, start, i);
            let ghost parts_pre = parts@;
            let ghost tv = tok@;
            parts.push(tok);
            proof {
                assert(parts@ == parts_pre.push(parts@[parts_pre.len() as int]));
                assert(views(parts@) =~= views(parts_pre).push(tv));
                assert(views(parts_pre).push(tv) =~= views(parts_pre) + seq![tv]);
            }
            start = i + 1;
        }
        i = i + 1;
    }
    let ghost rest = v@.subrange(start as int, v@.len() as int);
    proof {
        assert(forall|k: int| 0 <= k < rest.len() ==> rest[k] == v@[start + k]);
        lemma_first_index_char(rest, sep, rest.len() as int);
        assert(first_index_of(rest, sep) == -1);
        assert(split_at(rest, sep) == seq![rest]);
    }
    let tok = sub_bytes(v, start, v.len());
    let ghost parts_pre = parts@;
    let ghost tv = tok@;
    parts.push(tok);
    proof {
        assert(parts@ == parts_pre.push(parts@[parts_pre.len() as int]));
        assert(views(parts@) =~= views(parts_pre).push(tv));
        assert(views(parts_pre).push(tv) =~= views(parts_pre) + seq![tv]);
    }
    parts
}

/// Isolate the program name from the invocation path, as the third
/// backslash-separated token before its first dot.
pub fn program_name(arg: &Vec<u8>) -> (r: Option<Vec<u8>>)
    ensures
        r matches Some(t) ==> program_name_spec(arg@) == Some(t@),
        r is None ==> program_name_spec(arg@) is None,
{
    let parts = split_bytes(arg, SEPARATOR);
    if parts.len() < 3 {
        return None;
    }
    let tok = &parts[2];
    assert(tok@ == split_at(arg@, SEPARATOR)[2]);
    match find_byte(tok, DOT) {
        Some(d) => Some(sub_bytes(tok, 0, d)),
        None => Some(copy_path(tok)),
    }
}

/// Append bytes to a growing name.
pub fn append_bytes(out: &mut Vec<u8>, add: &Vec<u8>)
    ensures
        final(out)@ == old(out)@ + add@,
{
    let mut i: usize = 0;
    while i < add.len()
        invariant
            i <= add@.len(),
            out@ == old(out)@ + add@.subrange(0, i as int),
        decreases add@.len() - i,
    {
        out.push(add[i]);
        assert(out@ =~= old(out)@ + add@.subrange(0, i + 1 as int));
        i = i + 1;
    }
    assert(out@ =~= old(out)@ + add@);
}

/// Compose a log file name from its four parts.
pub fn compose_log_file_name(dir: &Vec<u8>, prog: &Vec<u8>, prefix: &Vec<u8>, stamp: &Vec<u8>) -> (r:
    Vec<u8>)
    ensures
        r@ == log_name_spec(dir@, prog@, prefix@, stamp@),
{
    let mut out = copy_path(dir);
    append_bytes(&mut out, prog);
    append_bytes(&mut out, prefix);
    append_bytes(&mut out, stamp);
    let mut i: usize = 0;
    let ghost mid = out@;
    while i < 4
        invariant
            i <= 4,
            out@ == mid + TXT_SUFFIX@.subrange(0, i as int),
        decreases 4 - i,
    {
        out.push(TXT_SUFFIX[i]);
        assert(out@ =~= mid + TXT_SUFFIX@.subrange(0, i + 1 as int));
        i = i + 1;
    }
    assert(out@ =~= log_name_spec(dir@, prog@, prefix@, stamp@));
    out
}

/// Relies on chrono's `Local::now` and its formatter for the compact
/// `year month day - hour minute second` timestamp. The value depends on
/// the clock, so nothing is assumed about it.
#[verifier::external_body]
fn local_timestamp_compact() -> Vec<u8> {
    chrono::Local::now().format("%Y%m%d-%H%M%S").to_string().into_bytes()
}

/// Compose the log file name for a run starting now: the timestamp comes
/// from the clock, everything around it is fixed by the arguments.
pub fn timestamped_log_file_name(dir: &Vec<u8>, prog: &Vec<u8>, prefix: &Vec<u8>) -> (r: Vec<u8>)
    ensures
        exists|stamp: Seq<u8>| r@ == log_name_spec(dir@, prog@, prefix@, stamp),
{
    let stamp = local_timestamp_compact();
    let r = compose_log_file_name(dir, prog, prefix, &stamp);
    assert(r@ == log_name_spec(dir@, prog@, prefix@, stamp@));
    r
}

} // verus!

//! Source-to-target path remapping and volume identification.
//!
//! A source path has the shape `<volume-designator><separator><rest>`,
//! e.g. a drive letter followed by a colon. Remapping relocates the path
//! under the target base by keeping the volume designator, dropping the
//! volume separator, and appending the rest unchanged, so entries from
//! different volumes land in distinct subtrees of one backup root.

use vstd::prelude::*;

verus! {

/// The primary path separator byte (backslash).
pub const SEPARATOR: u8 = 92;

/// The alternate path separator byte (forward slash).
pub const SLASH: u8 = 47;

/// Whether a byte separates path segments: either separator is accepted,
/// as source roots and exclude prefixes may be written with both.
pub open spec fn is_separator(b: u8) -> bool {
    b == SEPARATOR || b == SLASH
}

/// Bytes equal up to separator equivalence: a backslash and a forward
/// slash bound the same segments.
pub open spec fn sep_eq(a: u8, b: u8) -> bool {
    a == b || (is_separator(a) && is_separator(b))
}

/// A path with trailing separator bytes removed, so `C:\data\` names the
/// same subtree as `C:\data`.
pub open spec fn trim_separators_end(s: Seq<u8>) -> Seq<u8>
    decreases s.len(),
{
    if s.len() > 0 && is_separator(s.last()) {
        trim_separators_end(s.drop_last())
    } else {
        s
    }
}

/// The views of a sequence of byte vectors.
pub open spec fn views(s: Seq<Vec<u8>>) -> Seq<Seq<u8>> {
    s.map_values(|v: Vec<u8>| v@)
}

/// A source path must carry at least a volume designator byte and the
/// volume separator byte before any remainder.
pub const MIN_SOURCE_LEN: usize = 2;

/// Error raised instead of slicing out of range when a path is too short
/// to carry a volume designator and its separator.
#[derive(Debug, PartialEq, Eq, Structural, Clone, Copy)]
pub enum RemapError {
    SourceTooShort,
}

/// The remapped target path: target base, then the volume designator byte,
/// then everything after the volume separator, unchanged.
pub open spec fn remapped(src: Seq<u8>, base: Seq<u8>) -> Seq<u8> {
    base + seq![src[0]] + src.subrange(2, src.len() as int)
}

/// Remapping never collides: two source paths that share the volume
/// separator convention (the same byte in second position) and land on
/// the same target path are the same path, so no two candidates of one
/// run ever write to one target.
pub proof fn lemma_remap_injective(s1: Seq<u8>, s2: Seq<u8>, base: Seq<u8>)
    requires
        s1.len() >= 2,
        s2.len() >= 2,
        s1[1] == s2[1],
        remapped(s1, base) == remapped(s2, base),
    ensures
        s1 == s2,
{
    let r1 = remapped(s1, base);
    let r2 = remapped(s2, base);
    assert(r1.len() == base.len() + 1 + s1.len() - 2);
    assert(r2.len() == base.len() + 1 + s2.len() - 2);
    assert(s1.len() == s2.len());
    assert(s1[0] == r1[base.len() as int]);
    assert(s2[0] == r2[base.len() as int]);
    assert forall|k: int| 2 <= k < s1.len() implies s1[k] == s2[k] by {
        assert(r1[base.len() + k - 1] == s1.subrange(2, s1.len() as int)[k - 2]);
        assert(r2[base.len() + k - 1] == s2.subrange(2, s2.len() as int)[k - 2]);
    }
    assert(s1 =~= s2);
}

/// Integer key identifying the volume of a path: its first two bytes.
pub open spec fn volume_key_spec(p: Seq<u8>) -> u64 {
    (p[0] as int * 256 + p[1] as int) as u64
}

/// Compute the integer volume key of a path (its two leading bytes).
pub fn volume_key(p: &Vec<u8>) -> (k: u64)
    requires
        p@.len() >= 2,
    ensures
        k == volume_key_spec(p@),
{
    (p[0] as u64) * 256 + (p[1] as u64)
}

/// Copy a path byte for byte.
pub fn copy_path(p: &Vec<u8>) -> (r: Vec<u8>)
    ensures
        r@ == p@,
{
    let mut out: Vec<u8> = Vec::new();
    let mut i: usize = 0;
    while i < p.len()
        invariant
            i <= p@.len(),
            out@ == p@.subrange(0, i as int),
        decreases p@.len() - i,
    {
        out.push(p[i]);
        i = i + 1;
    }
    assert(out@ =~= p@);
    out
}

/// Remap a source path onto the target base. Paths shorter than the
/// minimal `<designator><separator>` prefix are rejected rather than
/// sliced out of range.
pub fn remap(src: &Vec<u8>, base: &Vec<u8>) -> (r: Result<Vec<u8>, RemapError>)
    ensures
        src@.len() >= 2 ==> (r matches Ok(t) && t@ == remapped(src@, base@)),
        src@.len() < 2 ==> (r matches Err(e) && e == RemapError::SourceTooShort),
{
    if src.len() < MIN_SOURCE_LEN {
        return Err(RemapError::SourceTooShort);
    }
    let mut out: Vec<u8> = Vec::new();
    let mut i: usize = 0;
    while i < base.len()
        invariant
            i <= base@.len(),
            out@ == base@.subrange(0, i as int),
        decreases base@.len() - i,
    {
        out.push(base[i]);
        i = i + 1;
    }
    assert(out@ == base@);
    out.push(src[0]);
    let mut j: usize = 2;
    while j < src.len()
        invariant
            2 <= j <= src@.len(),
            src@.len() >= 2,
            out@ == base@ + seq![src@[0]] + src@.subrange(2, j as int),
        decreases src@.len() - j,
    {
        out.push(src[j]);
        assert(out@ =~= base@ + seq![src@[0]] + src@.subrange(2, j + 1 as int));
        j = j + 1;
    }
    assert(out@ =~= remapped(src@, base@));
    Ok(out)
}

} // verus!

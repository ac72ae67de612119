//! Little-endian field readers and byte-buffer writers.

use crate::error::{DbpxError, ErrorKind, Field};
use vstd::bytes::*;
use vstd::prelude::*;

verus! {

/// The little-endian `u16` at `at`.
pub open spec fn le_u16(s: Seq<u8>, at: int) -> u16 {
    spec_u16_from_le_bytes(s.subrange(at, at + 2))
}

/// The little-endian `u32` at `at`.
pub open spec fn le_u32(s: Seq<u8>, at: int) -> u32 {
    spec_u32_from_le_bytes(s.subrange(at, at + 4))
}

/// The little-endian `u64` at `at`.
pub open spec fn le_u64(s: Seq<u8>, at: int) -> u64 {
    spec_u64_from_le_bytes(s.subrange(at, at + 8))
}

/// The error, if any, of reading an `n`-byte field at `at` from `len` bytes.
pub open spec fn read_error(len: nat, at: usize, n: nat, f: Field) -> Option<ErrorKind> {
    if at + n > usize::MAX {
        Some(ErrorKind::OffsetOverflow(f))
    } else if at + n > len {
        Some(ErrorKind::TruncatedField(f))
    } else {
        None
    }
}

/// Appends `s` to `out`.
pub fn append_bytes(out: &mut Vec<u8>, s: &[u8])
    ensures
        final(out)@ == old(out)@ + s@,
{
    let mut i: usize = 0;
    while i < s.len()
        invariant
            i <= s.len(),
            out@ == old(out)@ + s@.take(i as int),
        decreases s.len() - i,
    {
        out.push(s[i]);
        assert(s@.take(i + 1) =~= s@.take(i as int).push(s@[i as int]));
        i = i + 1;
    }
    assert(s@.take(i as int) =~= s@);
}

/// Reads four bytes at `at`.
pub fn arr4(data: &[u8], at: usize) -> (r: Result<[u8; 4], DbpxError>)
    ensures
        match r {
            Ok(a) => read_error(data@.len(), at, 4, Field::Array4) is None && a@ == data@.subrange(
                at as int,
                at + 4,
            ),
            Err(e) => read_error(data@.len(), at, 4, Field::Array4) == Some(e.kind),
        },
{
    if at > usize::MAX - 4 {
        return Err(DbpxError::of(ErrorKind::OffsetOverflow(Field::Array4)));
    }
    if at + 4 > data.len() {
        return Err(DbpxError::of(ErrorKind::TruncatedField(Field::Array4)));
    }
    let a = [data[at], data[at + 1], data[at + 2], data[at + 3]];
    assert(a@ =~= data@.subrange(at as int, at + 4));
    Ok(a)
}

/// Reads the little-endian `u16` at `at`.
pub fn u16le(data: &[u8], at: usize) -> (r: Result<u16, DbpxError>)
    ensures
        match r {
            Ok(v) => read_error(data@.len(), at, 2, Field::U16) is None && v == le_u16(
                data@,
                at as int,
            ),
            Err(e) => read_error(data@.len(), at, 2, Field::U16) == Some(e.kind),
        },
{
    if at > usize::MAX - 2 {
        return Err(DbpxError::of(ErrorKind::OffsetOverflow(Field::U16)));
    }
    if at + 2 > data.len() {
        return Err(DbpxError::of(ErrorKind::TruncatedField(Field::U16)));
    }
    Ok(u16_from_le_bytes(&data[at..at + 2]))
}

/// Reads the little-endian `u32` at `at`.
pub fn u32le(data: &[u8], at: usize) -> (r: Result<u32, DbpxError>)
    ensures
        match r {
            Ok(v) => read_error(data@.len(), at, 4, Field::U32) is None && v == le_u32(
                data@,
                at as int,
            ),
            Err(e) => read_error(data@.len(), at, 4, Field::U32) == Some(e.kind),
        },
{
    if at > usize::MAX - 4 {
        return Err(DbpxError::of(ErrorKind::OffsetOverflow(Field::U32)));
    }
    if at + 4 > data.len() {
        return Err(DbpxError::of(ErrorKind::TruncatedField(Field::U32)));
    }
    Ok(u32_from_le_bytes(&data[at..at + 4]))
}

/// Reads the little-endian `u64` at `at`.
pub fn u64le(data: &[u8], at: usize) -> (r: Result<u64, DbpxError>)
    ensures
        match r {
            Ok(v) => read_error(data@.len(), at, 8, Field::U64) is None && v == le_u64(
                data@,
                at as int,
            ),
            Err(e) => read_error(data@.len(), at, 8, Field::U64) == Some(e.kind),
        },
{
    if at > usize::MAX - 8 {
        return Err(DbpxError::of(ErrorKind::OffsetOverflow(Field::U64)));
    }
    if at + 8 > data.len() {
        return Err(DbpxError::of(ErrorKind::TruncatedField(Field::U64)));
    }
    Ok(u64_from_le_bytes(&data[at..at + 8]))
}

/// Changing one byte of a little-endian `u32` field changes its value.
pub proof fn lemma_le_u32_update(d: Seq<u8>, at: int, k: int, b: u8)
    requires
        0 <= at,
        at + 4 <= d.len(),
        at <= k < at + 4,
        d[k] != b,
    ensures
        le_u32(d.update(k, b), at) != le_u32(d, at),
{
    lemma_auto_spec_u32_to_from_le_bytes();
    let s = d.subrange(at, at + 4);
    let s2 = d.update(k, b).subrange(at, at + 4);
    assert(s2[k - at] != s[k - at]);
    if le_u32(d.update(k, b), at) == le_u32(d, at) {
        assert(spec_u32_to_le_bytes(spec_u32_from_le_bytes(s)) == s);
        assert(spec_u32_to_le_bytes(spec_u32_from_le_bytes(s2)) == s2);
    }
}

} // verus!

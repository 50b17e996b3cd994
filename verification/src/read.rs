//! Bounded integer readers over an untrusted byte slice.
//!
//! Every multi-byte read gives 0 when the requested window is out of range, never a
//! panic: the front door for every offset and length field of an image.

use vstd::prelude::*;

verus! {

broadcast use vstd::seq::group_seq_axioms;

/// The number that the bytes write, most significant first.
pub open spec fn be_value(s: Seq<u8>) -> nat
    decreases s.len(),
{
    if s.len() == 0 {
        0
    } else {
        be_value(s.drop_last()) * 256 + s.last() as nat
    }
}

/// The number that the bytes write, least significant first.
pub open spec fn le_value(s: Seq<u8>) -> nat
    decreases s.len(),
{
    if s.len() == 0 {
        0
    } else {
        s[0] as nat + le_value(s.skip(1)) * 256
    }
}

/// The `n` bytes of `data` at `off` lie within it.
pub open spec fn in_range(data: Seq<u8>, off: int, n: int) -> bool {
    off + n <= data.len()
}

/// The big-endian number of `n` bytes at `off`, or 0 where they do not lie within
/// `data`.
pub open spec fn be_at(data: Seq<u8>, off: int, n: int) -> nat {
    if in_range(data, off, n) {
        be_value(data.subrange(off, off + n))
    } else {
        0
    }
}

/// The little-endian number of `n` bytes at `off`, or 0 where they do not lie within
/// `data`.
pub open spec fn le_at(data: Seq<u8>, off: int, n: int) -> nat {
    if in_range(data, off, n) {
        le_value(data.subrange(off, off + n))
    } else {
        0
    }
}

/// One more byte at the end of a big-endian number.
proof fn lemma_be_next(data: Seq<u8>, off: int, n: int)
    requires
        0 <= off,
        0 <= n,
        off + n + 1 <= data.len(),
    ensures
        be_value(data.subrange(off, off + n + 1)) == be_value(data.subrange(off, off + n)) * 256
            + data[off + n] as nat,
{
    let s = data.subrange(off, off + n + 1);
    assert(s.drop_last() =~= data.subrange(off, off + n));
}

/// One more byte at the start of a little-endian number.
proof fn lemma_le_next(data: Seq<u8>, off: int, n: int)
    requires
        0 <= off,
        0 <= n,
        off + n + 1 <= data.len(),
    ensures
        le_value(data.subrange(off, off + n + 1)) == data[off] as nat + le_value(
            data.subrange(off + 1, off + n + 1),
        ) * 256,
{
    let s = data.subrange(off, off + n + 1);
    assert(s.skip(1) =~= data.subrange(off + 1, off + n + 1));
}

pub(crate) proof fn lemma_be2(data: Seq<u8>, off: int)
    requires
        0 <= off,
        off + 2 <= data.len(),
    ensures
        be_value(data.subrange(off, off + 2)) == data[off] * 256 + data[off + 1],
{
    assert(data.subrange(off, off) =~= Seq::<u8>::empty());
    lemma_be_next(data, off, 0);
    lemma_be_next(data, off, 1);
}

pub(crate) proof fn lemma_le2(data: Seq<u8>, off: int)
    requires
        0 <= off,
        off + 2 <= data.len(),
    ensures
        le_value(data.subrange(off, off + 2)) == data[off] + data[off + 1] * 256,
{
    assert(data.subrange(off + 2, off + 2) =~= Seq::<u8>::empty());
    lemma_le_next(data, off, 1);
    lemma_le_next(data, off + 1, 0);
}

pub(crate) proof fn lemma_be4(data: Seq<u8>, off: int)
    requires
        0 <= off,
        off + 4 <= data.len(),
    ensures
        be_value(data.subrange(off, off + 4)) == data[off] * 0x100_0000 + data[off + 1] * 0x1_0000
            + data[off + 2] * 0x100 + data[off + 3],
{
    lemma_be2(data, off);
    lemma_be_next(data, off, 2);
    lemma_be_next(data, off, 3);
}

pub(crate) proof fn lemma_le4(data: Seq<u8>, off: int)
    requires
        0 <= off,
        off + 4 <= data.len(),
    ensures
        le_value(data.subrange(off, off + 4)) == data[off] + data[off + 1] * 0x100 + data[off + 2]
            * 0x1_0000 + data[off + 3] * 0x100_0000,
{
    lemma_le2(data, off + 2);
    lemma_le_next(data, off + 1, 2);
    lemma_le_next(data, off, 3);
}

pub(crate) proof fn lemma_be8(data: Seq<u8>, off: int)
    requires
        0 <= off,
        off + 8 <= data.len(),
    ensures
        be_value(data.subrange(off, off + 8)) == be_value(data.subrange(off, off + 4))
            * 0x1_0000_0000 + be_value(data.subrange(off + 4, off + 8)),
{
    lemma_be_next(data, off, 4);
    lemma_be_next(data, off, 5);
    lemma_be_next(data, off, 6);
    lemma_be_next(data, off, 7);
    lemma_be4(data, off + 4);
}

pub(crate) proof fn lemma_le8(data: Seq<u8>, off: int)
    requires
        0 <= off,
        off + 8 <= data.len(),
    ensures
        le_value(data.subrange(off, off + 8)) == le_value(data.subrange(off, off + 4)) + le_value(
            data.subrange(off + 4, off + 8),
        ) * 0x1_0000_0000,
{
    lemma_le_next(data, off + 3, 4);
    lemma_le_next(data, off + 2, 5);
    lemma_le_next(data, off + 1, 6);
    lemma_le_next(data, off, 7);
    lemma_le4(data, off);
}

/// True when `n` bytes at `off` lie within the slice.
fn fits(data: &[u8], off: usize, n: usize) -> (r: bool)
    ensures
        r == in_range(data@, off as int, n as int),
        data@.len() <= usize::MAX,
{
    let len: usize = data.len();
    n <= len && off <= len - n
}

/// A big-endian `u16` at `off`, or 0 out of range.
pub fn be_u16(data: &[u8], off: usize) -> (r: u16)
    ensures
        r == be_at(data@, off as int, 2),
{
    if !fits(data, off, 2) {
        return 0;
    }
    proof {
        lemma_be2(data@, off as int);
    }
    data[off] as u16 * 256 + data[off + 1] as u16
}

/// A little-endian `u16` at `off`, or 0 out of range.
pub fn le_u16(data: &[u8], off: usize) -> (r: u16)
    ensures
        r == le_at(data@, off as int, 2),
{
    if !fits(data, off, 2) {
        return 0;
    }
    proof {
        lemma_le2(data@, off as int);
    }
    data[off] as u16 + data[off + 1] as u16 * 256
}

/// A big-endian `u32` at `off`, or 0 out of range.
pub fn be_u32(data: &[u8], off: usize) -> (r: u32)
    ensures
        r == be_at(data@, off as int, 4),
{
    if !fits(data, off, 4) {
        return 0;
    }
    proof {
        lemma_be4(data@, off as int);
    }
    data[off] as u32 * 0x100_0000 + data[off + 1] as u32 * 0x1_0000 + data[off + 2] as u32 * 0x100
        + data[off + 3] as u32
}

/// A little-endian `u32` at `off`, or 0 out of range.
pub fn le_u32(data: &[u8], off: usize) -> (r: u32)
    ensures
        r == le_at(data@, off as int, 4),
{
    if !fits(data, off, 4) {
        return 0;
    }
    proof {
        lemma_le4(data@, off as int);
    }
    data[off] as u32 + data[off + 1] as u32 * 0x100 + data[off + 2] as u32 * 0x1_0000 + data[off
        + 3] as u32 * 0x100_0000
}

/// A big-endian `u64` at `off`, or 0 out of range.
pub fn be_u64(data: &[u8], off: usize) -> (r: u64)
    ensures
        r == be_at(data@, off as int, 8),
{
    if !fits(data, off, 8) {
        return 0;
    }
    proof {
        lemma_be8(data@, off as int);
    }
    let high: u64 = be_u32(data, off) as u64;
    let low: u64 = be_u32(data, off + 4) as u64;
    high * 0x1_0000_0000 + low
}

/// A little-endian `u64` at `off`, or 0 out of range.
pub fn le_u64(data: &[u8], off: usize) -> (r: u64)
    ensures
        r == le_at(data@, off as int, 8),
{
    if !fits(data, off, 8) {
        return 0;
    }
    proof {
        lemma_le8(data@, off as int);
    }
    let low: u64 = le_u32(data, off) as u64;
    let high: u64 = le_u32(data, off + 4) as u64;
    low + high * 0x1_0000_0000
}

} // verus!

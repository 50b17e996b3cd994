//! What the probers see and what the integer readers read, said byte by byte.

use vstd::prelude::*;

use crate::engine::{is_ewf, ntfs_probe};
use crate::read::{be_u16, be_u32, be_u64, le_u16, le_u32, le_u64};
use crate::registry::{Confidence, SniffWindow};
use crate::snapshot::epoch_from_create_time;
use crate::text::ascii;

use state_history_forensic::epoch::EpochTag;

verus! {

broadcast use vstd::seq::group_seq_axioms;

// ---------------------------------------------------------------------------
// Windows
// ---------------------------------------------------------------------------

/// `what` stands in `s` at `at`, all of it.
pub open spec fn stands_at(s: Seq<u8>, at: int, what: Seq<u8>) -> bool {
    &&& 0 <= at
    &&& at + what.len() <= s.len()
    &&& forall|i: int| 0 <= i < what.len() ==> s[at + i] == #[trigger] what[i]
}

/// A magic is seen in the head exactly where its bytes stand.
pub proof fn a_magic_is_seen_where_it_stands(
    w: &SniffWindow<'_>,
    off: usize,
    magic: &[u8],
    r: bool,
)
    requires
        call_ensures(SniffWindow::has_magic, (w, off, magic), r),
    ensures
        r <==> stands_at(w@.bytes, off as int, magic@),
{
    let n = magic@.len() as int;
    if off + n <= w@.bytes.len() {
        let part = w@.bytes.subrange(off as int, off + n);
        if stands_at(w@.bytes, off as int, magic@) {
            assert(part =~= magic@);
        }
        if part == magic@ {
            assert forall|i: int| 0 <= i < n implies w@.bytes[off + i] == #[trigger] magic@[i] by {
                assert(part[i] == magic@[i]);
            }
        }
    }
}

/// A magic is seen from the end exactly where its bytes stand in the tail, counted from the
/// end.
pub proof fn a_magic_is_seen_from_the_end(
    w: &SniffWindow<'_>,
    from_end: usize,
    magic: &[u8],
    r: bool,
)
    requires
        call_ensures(SniffWindow::has_magic_from_end, (w, from_end, magic), r),
    ensures
        r <==> stands_at(w@.tail, w@.tail.len() - from_end, magic@),
{
    let n = magic@.len() as int;
    let at = w@.tail.len() - from_end;
    if 0 <= at && at + n <= w@.tail.len() {
        let part = w@.tail.subrange(at, at + n);
        if stands_at(w@.tail, at, magic@) {
            assert(part =~= magic@);
        }
        if part == magic@ {
            assert forall|i: int| 0 <= i < n implies w@.tail[at + i] == #[trigger] magic@[i] by {
                assert(part[i] == magic@[i]);
            }
        }
    }
}

/// The bytes of a window at an offset are those that stand there, all of them or none.
pub proof fn a_piece_is_what_stands_there(
    w: &SniffWindow<'_>,
    off: usize,
    n: usize,
    r: Option<&[u8]>,
)
    requires
        call_ensures(SniffWindow::at, (w, off, n), r),
    ensures
        r is Some <==> off + n <= w@.bytes.len(),
        r matches Some(b) ==> b@.len() == n && stands_at(w@.bytes, off as int, b@),
{
}

/// NTFS is claimed exactly where `NTFS` and four spaces stand at the fourth byte.
pub proof fn ntfs_is_known_by_its_name(w: &SniffWindow<'_>, c: Confidence)
    requires
        call_ensures(ntfs_probe, (w,), c),
    ensures
        c is Yes <==> stands_at(
            w@.bytes,
            3,
            seq![0x4eu8, 0x54u8, 0x46u8, 0x53u8, 0x20u8, 0x20u8, 0x20u8, 0x20u8],
        ),
        !(c is Maybe),
{
    reveal_strlit("NTFS    ");
    let magic = seq![0x4eu8, 0x54u8, 0x46u8, 0x53u8, 0x20u8, 0x20u8, 0x20u8, 0x20u8];
    assert(ascii("NTFS    "@) =~= magic);
    let b = w@.bytes;
    if 11 <= b.len() {
        let part = b.subrange(3, 11);
        if stands_at(b, 3, magic) {
            assert(part =~= magic);
        }
        if part == magic {
            assert forall|i: int| 0 <= i < 8 implies b[3 + i] == #[trigger] magic[i] by {
                assert(part[i] == magic[i]);
            }
        }
    }
}

/// The byte is that letter, in either case.
pub open spec fn is_letter(b: u8, lower: u8) -> bool {
    b == lower || b == lower - 0x20
}

/// An EWF image is known by its extension: `e01` or `ex01`, the letters in either case.
pub proof fn ewf_is_known_by_its_extension(extension: Option<&[u8]>, r: bool)
    requires
        call_ensures(is_ewf, (extension,), r),
    ensures
        r <==> (extension matches Some(e) && {
            ||| e@.len() == 3 && is_letter(e@[0], 0x65) && e@[1] == 0x30 && e@[2] == 0x31
            ||| e@.len() == 4 && is_letter(e@[0], 0x65) && is_letter(e@[1], 0x78) && e@[2] == 0x30
                && e@[3] == 0x31
        }),
{
    reveal_strlit("e01");
    reveal_strlit("ex01");
    if let Some(e) = extension {
        let low = crate::engine::lowered(e@);
        let three = ascii("e01"@);
        let four = ascii("ex01"@);
        assert(three.len() == 3 && three[0] == 0x65 && three[1] == 0x30 && three[2] == 0x31);
        assert(four.len() == 4 && four[0] == 0x65 && four[1] == 0x78 && four[2] == 0x30 && four[3]
            == 0x31);
        if e@.len() == 3 {
            if low == three {
                assert(low[0] == 0x65 && low[1] == 0x30 && low[2] == 0x31);
            }
            if is_letter(e@[0], 0x65) && e@[1] == 0x30 && e@[2] == 0x31 {
                assert(low =~= three);
            }
        }
        if e@.len() == 4 {
            if low == four {
                assert(low[0] == 0x65 && low[1] == 0x78 && low[2] == 0x30 && low[3] == 0x31);
            }
            if is_letter(e@[0], 0x65) && is_letter(e@[1], 0x78) && e@[2] == 0x30 && e@[3] == 0x31 {
                assert(low =~= four);
            }
        }
    }
}

// ---------------------------------------------------------------------------
// Integers
// ---------------------------------------------------------------------------

/// Two bytes at an offset are read as a number in either order; out of range it is 0.
pub proof fn two_bytes_are_read(data: &[u8], off: usize, big: u16, little: u16)
    requires
        call_ensures(be_u16, (data, off), big),
        call_ensures(le_u16, (data, off), little),
    ensures
        off + 2 <= data@.len() ==> {
            let o = off as int;
            &&& big == 256 * data@[o] + data@[o + 1]
            &&& little == data@[o] + 256 * data@[o + 1]
        },
        off + 2 > data@.len() ==> big == 0 && little == 0,
{
    if off + 2 <= data@.len() {
        crate::read::lemma_be2(data@, off as int);
        crate::read::lemma_le2(data@, off as int);
    }
}

/// Four bytes at an offset are read as a number in either order; out of range it is 0.
pub proof fn four_bytes_are_read(data: &[u8], off: usize, big: u32, little: u32)
    requires
        call_ensures(be_u32, (data, off), big),
        call_ensures(le_u32, (data, off), little),
    ensures
        off + 4 <= data@.len() ==> {
            let o = off as int;
            &&& big == 0x100_0000 * data@[o] + 0x1_0000 * data@[o + 1] + 0x100 * data@[o + 2]
                + data@[o + 3]
            &&& little == data@[o] + 0x100 * data@[o + 1] + 0x1_0000 * data@[o + 2] + 0x100_0000
                * data@[o + 3]
        },
        off + 4 > data@.len() ==> big == 0 && little == 0,
{
    if off + 4 <= data@.len() {
        crate::read::lemma_be4(data@, off as int);
        crate::read::lemma_le4(data@, off as int);
    }
}

/// Eight bytes at an offset are read as a number in either order, the two halves as numbers
/// of four bytes; out of range it is 0.
pub proof fn eight_bytes_are_read(data: &[u8], off: usize, big: u64, little: u64)
    requires
        call_ensures(be_u64, (data, off), big),
        call_ensures(le_u64, (data, off), little),
    ensures
        off + 8 <= data@.len() ==> {
            let o = off as int;
            let d = data@;
            &&& big == 0x1_0000_0000 * (0x100_0000 * d[o] + 0x1_0000 * d[o + 1] + 0x100 * d[o + 2]
                + d[o + 3]) + (0x100_0000 * d[o + 4] + 0x1_0000 * d[o + 5] + 0x100 * d[o + 6]
                + d[o + 7])
            &&& little == (d[o] + 0x100 * d[o + 1] + 0x1_0000 * d[o + 2] + 0x100_0000 * d[o + 3])
                + 0x1_0000_0000 * (d[o + 4] + 0x100 * d[o + 5] + 0x1_0000 * d[o + 6] + 0x100_0000
                * d[o + 7])
        },
        off + 8 > data@.len() ==> big == 0 && little == 0,
{
    if off + 8 <= data@.len() {
        crate::read::lemma_be8(data@, off as int);
        crate::read::lemma_le8(data@, off as int);
        crate::read::lemma_be4(data@, off as int);
        crate::read::lemma_le4(data@, off as int);
        crate::read::lemma_be4(data@, off + 4);
        crate::read::lemma_le4(data@, off + 4);
    }
}

// ---------------------------------------------------------------------------
// Tags of times
// ---------------------------------------------------------------------------

/// The tag of a creation time is 24 zeros and the time in eight bytes, the most significant
/// first.
pub proof fn a_tag_ends_in_its_time(t: u64, tag: EpochTag)
    requires
        call_ensures(epoch_from_create_time, (t,), tag),
    ensures
        forall|i: int| 0 <= i < 24 ==> #[trigger] tag.0@[i] == 0,
        ({
            let d = tag.0@;
            t == 0x1_0000_0000 * (0x100_0000 * d[24] + 0x1_0000 * d[25] + 0x100 * d[26] + d[27]) + (
            0x100_0000 * d[28] + 0x1_0000 * d[29] + 0x100 * d[30] + d[31])
        }),
{
    let d = tag.0@;
    assert(d.len() == 32);
    crate::read::lemma_be8(d, 24);
    crate::read::lemma_be4(d, 24);
    crate::read::lemma_be4(d, 28);
}

} // verus!

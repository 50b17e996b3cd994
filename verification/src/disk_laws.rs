//! What the tables and the windows of a disk give, said on the bytes of the disk.

use vstd::prelude::*;

use crate::adapters::{capped_sum, clamped, shares, wanted, window_read, SubRange};
use crate::error::{VfsError, VfsResult};
use crate::partition::{
    capped, gpt_entries_parse, gpt_entry, gpt_entry_count, gpt_entry_size, gpt_parses, gpt_volumes,
    mbr_entry, mbr_parses, mbr_volumes, opens_window, reads_zeroed, stands_for, Gpt, GptProbe, Mbr,
    MbrProbe,
};
use crate::partition_laws::lists_entries;
use crate::read::{le_at, le_value};
use crate::registry::{Confidence, VolumeSystemProbe, WindowModel};
use crate::source::{DynSource, ImageSource};
use crate::volume::{volume_models, VolumeDesc, VolumeKind, VolumeModel, VolumeSystem};

verus! {

broadcast use vstd::seq::group_seq_axioms;

// ---------------------------------------------------------------------------
// A source that holds bytes
// ---------------------------------------------------------------------------

/// How many bytes there are to read for a buffer of `n` at `offset`.
pub open spec fn available(b: Seq<u8>, offset: int, n: int) -> int {
    if offset >= b.len() {
        0
    } else if offset + n <= b.len() {
        n
    } else {
        b.len() - offset
    }
}

/// The read gave the bytes at `offset`, as many as there are and the buffer takes, and left
/// the rest of the buffer alone.
pub open spec fn reads_true(
    b: Seq<u8>,
    offset: u64,
    before: Seq<u8>,
    after: Seq<u8>,
    r: VfsResult<usize>,
) -> bool {
    let k = available(b, offset as int, before.len() as int);
    &&& r matches Ok(got) && got == k
    &&& after.len() == before.len()
    &&& forall|i: int|
        0 <= i < after.len() ==> #[trigger] after[i] == if i < k {
            b[offset + i]
        } else {
            before[i]
        }
}

/// The source holds these bytes: it says so of its length, and every read gives them.
pub open spec fn holds_bytes(src: DynSource, b: Seq<u8>) -> bool {
    &&& b.len() <= u64::MAX
    &&& forall|n: u64| #[trigger] src.inner.may_len(n) ==> n == b.len()
    &&& forall|offset: u64, before: Seq<u8>, after: Seq<u8>, r: VfsResult<usize>| #[trigger]
        src.inner.may_read(offset, before, after, r) && after.len() == before.len() ==> reads_true(
            b,
            offset,
            before,
            after,
            r,
        )
}

/// The byte at `i`; past the end of the disk, zero.
pub open spec fn byte_at(b: Seq<u8>, i: int) -> u8 {
    if 0 <= i < b.len() {
        b[i]
    } else {
        0
    }
}

/// The number that `n` bytes at `i` write, the least significant first.
pub open spec fn number_at(b: Seq<u8>, i: int, n: int) -> int
    decreases n,
{
    if n <= 0 {
        0
    } else {
        byte_at(b, i) + 256 * number_at(b, i + 1, n - 1)
    }
}

/// At most the largest offset there is.
pub open spec fn at_most_max(n: int) -> int {
    if n <= 0xffff_ffff_ffff_ffff {
        n
    } else {
        0xffff_ffff_ffff_ffff
    }
}

/// A hexadecimal digit, a letter in lower case.
pub open spec fn hex_char(n: int) -> char {
    if n < 10 {
        (48 + n) as char
    } else {
        (87 + n) as char
    }
}

// ---------------------------------------------------------------------------
// Windows
// ---------------------------------------------------------------------------

/// The bytes from `start` on, at most `len` of them.
pub open spec fn part_of(b: Seq<u8>, start: int, len: int) -> Seq<u8> {
    b.subrange(
        if start <= b.len() {
            start
        } else {
            b.len() as int
        },
        if start + len <= b.len() {
            start + len
        } else {
            b.len() as int
        },
    )
}

/// A read of a window of a source that holds `b` gives the bytes of that part of `b`.
pub proof fn a_window_reads_its_part(
    parent: DynSource,
    b: Seq<u8>,
    start: u64,
    len: u64,
    offset: u64,
    before: Seq<u8>,
    after: Seq<u8>,
    r: VfsResult<usize>,
)
    requires
        holds_bytes(parent, b),
        start + len <= b.len() || len == 0,
        window_read(parent, start, len, offset, before, after, r),
    ensures
        reads_true(b.subrange(start as int, start + len), offset, before, after, r) || len == 0,
        len == 0 ==> reads_true(Seq::empty(), offset, before, after, r),
{
    if offset < len {
        let part = b.subrange(start as int, start + len);
        let want = wanted(before.len(), offset, len);
        let asked = before.take(want);
        let filled = choose|filled: Seq<u8>|
            {
                &&& #[trigger] parent.inner.may_read(capped_sum(start, offset), asked, filled, r)
                &&& filled.len() == want
                &&& after == filled + before.skip(want)
            };
        assert(reads_true(b, capped_sum(start, offset), asked, filled, r));
        assert(available(part, offset as int, before.len() as int) == want);
        assert forall|i: int| 0 <= i < after.len() implies #[trigger] after[i] == if i < want {
            part[offset + i]
        } else {
            before[i]
        } by {
            if i < want {
                assert(after[i] == filled[i]);
            }
        }
    }
}

/// A window holds its part of the bytes of the source that it lies in: from its start on,
/// no more than it was asked for, and cut at the end of the source.
pub proof fn a_window_holds_its_part(
    parent: DynSource,
    b: Seq<u8>,
    start: u64,
    len: u64,
    s: SubRange,
    d: DynSource,
)
    requires
        holds_bytes(parent, b),
        call_ensures(SubRange::new, (parent, start, len), s),
        call_ensures(SubRange::into_source, (s,), d),
    ensures
        holds_bytes(d, part_of(b, start as int, len as int)),
{
    let n = choose|n: u64| #[trigger]
        parent.inner.may_len(n) && s.window_len() == clamped(start, len, n);
    lemma_window(parent, b, start, len, s, d);
}

proof fn lemma_window(
    parent: DynSource,
    b: Seq<u8>,
    start: u64,
    len: u64,
    s: SubRange,
    d: DynSource,
)
    requires
        holds_bytes(parent, b),
        s.parent() == parent,
        s.base() == start,
        exists|n: u64| #[trigger]
            parent.inner.may_len(n) && s.window_len() == clamped(start, len, n),
        shares(d, s),
    ensures
        holds_bytes(d, part_of(b, start as int, len as int)),
{
    let n = choose|n: u64| #[trigger]
        parent.inner.may_len(n) && s.window_len() == clamped(start, len, n);
    let cut = s.window_len();
    let part = part_of(b, start as int, len as int);
    assert(cut == part.len());
    assert forall|m: u64| #[trigger] d.inner.may_len(m) implies m == part.len() by {
        assert(s.may_len(m));
    }
    assert forall|offset: u64, before: Seq<u8>, after: Seq<u8>, r: VfsResult<usize>| #[trigger]
        d.inner.may_read(offset, before, after, r) && after.len()
            == before.len() implies reads_true(part, offset, before, after, r) by {
        assert(s.may_read(offset, before, after, r));
        a_window_reads_its_part(parent, b, start, cut, offset, before, after, r);
        if cut == 0 {
            assert(part =~= Seq::<u8>::empty());
        } else {
            assert(part =~= b.subrange(start as int, start + cut));
        }
    }
}

// ---------------------------------------------------------------------------
// Reading a table
// ---------------------------------------------------------------------------

proof fn lemma_number(s: Seq<u8>, b: Seq<u8>, i: int)
    requires
        forall|k: int| 0 <= k < s.len() ==> #[trigger] s[k] == byte_at(b, i + k),
    ensures
        le_value(s) == number_at(b, i, s.len() as int),
    decreases s.len(),
{
    if s.len() > 0 {
        let rest = s.skip(1);
        assert forall|k: int| 0 <= k < rest.len() implies #[trigger] rest[k] == byte_at(
            b,
            i + 1 + k,
        ) by {
            assert(rest[k] == s[k + 1]);
        }
        lemma_number(rest, b, i + 1);
    }
}

/// The bytes of `s` are those of the disk from `i` on.
spec fn copied(s: Seq<u8>, b: Seq<u8>, i: int) -> bool {
    forall|k: int| 0 <= k < s.len() ==> #[trigger] s[k] == byte_at(b, i + k)
}

proof fn lemma_number_in(s: Seq<u8>, b: Seq<u8>, i: int, off: int, n: int)
    requires
        copied(s, b, i),
        0 <= off,
        0 <= n,
        off + n <= s.len(),
    ensures
        le_at(s, off, n) == number_at(b, i + off, n),
{
    let part = s.subrange(off, off + n);
    assert forall|k: int| 0 <= k < part.len() implies #[trigger] part[k] == byte_at(
        b,
        i + off + k,
    ) by {
        assert(part[k] == s[off + k]);
    }
    lemma_number(part, b, i + off);
}

proof fn lemma_read(src: DynSource, b: Seq<u8>, offset: u64, n: int, r: VfsResult<Seq<u8>>)
    requires
        holds_bytes(src, b),
        n >= 0,
        reads_zeroed(src, offset, n, r),
    ensures
        r is Ok,
        r->Ok_0.len() == n,
        copied(r->Ok_0, b, offset as int),
{
    let blank = crate::resolver::zeros(n);
    let (filled, got) = choose|filled: Seq<u8>, got: VfsResult<usize>|
        {
            &&& #[trigger] src.inner.may_read(offset, blank, filled, got)
            &&& filled.len() == n
            &&& r == match got {
                Ok(_) => Ok(filled),
                Err(e) => Err::<Seq<u8>, VfsError>(e),
            }
        };
    assert(reads_true(b, offset, blank, filled, got));
    assert forall|k: int| 0 <= k < filled.len() implies #[trigger] filled[k] == byte_at(
        b,
        offset + k,
    ) by {}
}

/// The volumes are the entries in use, in the order of the table: `used` says which of the
/// first `n` are, and `is_entry` what a volume says of its entry.
pub open spec fn lists_used(
    volumes: Seq<VolumeModel>,
    n: int,
    used: spec_fn(int) -> bool,
    is_entry: spec_fn(int, VolumeModel) -> bool,
) -> bool {
    &&& forall|k: int|
        0 <= k < volumes.len() ==> {
            &&& 0 <= (#[trigger] volumes[k]).index < n
            &&& used(volumes[k].index)
            &&& is_entry(volumes[k].index, volumes[k])
        }
    &&& forall|j: int, k: int|
        0 <= j < k < volumes.len() ==> (#[trigger] volumes[j]).index < (
        #[trigger] volumes[k]).index
    &&& forall|i: int|
        0 <= i < n && #[trigger] used(i) ==> exists|k: int|
            0 <= k < volumes.len() && (#[trigger] volumes[k]).index == i
}

proof fn lemma_lists_used(
    entry: spec_fn(int) -> Option<VolumeModel>,
    volumes: Seq<VolumeModel>,
    n: int,
    used: spec_fn(int) -> bool,
    is_entry: spec_fn(int, VolumeModel) -> bool,
)
    requires
        lists_entries(entry, n, volumes),
        forall|i: int|
            0 <= i < n ==> ((#[trigger] entry(i)) is Some <==> used(i)) && (entry(i) matches Some(
                v,
            ) ==> v.index == i && is_entry(i, v)),
    ensures
        lists_used(volumes, n, used, is_entry),
{
    assert forall|k: int| 0 <= k < volumes.len() implies {
        &&& 0 <= (#[trigger] volumes[k]).index < n
        &&& used(volumes[k].index)
        &&& is_entry(volumes[k].index, volumes[k])
    } by {
        assert(entry(volumes[k].index) == Some(volumes[k]));
    }
    assert forall|i: int| 0 <= i < n && #[trigger] used(i) implies exists|k: int|
        0 <= k < volumes.len() && (#[trigger] volumes[k]).index == i by {
        assert(entry(i) is Some);
        assert(volumes.contains(entry(i)->0));
        let k = choose|k: int| 0 <= k < volumes.len() && volumes[k] == entry(i)->0;
        assert(volumes[k].index == i);
    }
}

// ---------------------------------------------------------------------------
// The table of the boot sector
// ---------------------------------------------------------------------------

/// Entry `i` of the boot sector is in use: it has a type, the type does not stand for a GUID
/// partition table, and it has sectors.
pub open spec fn boot_entry_used(b: Seq<u8>, i: int) -> bool {
    let at = 446 + 16 * i;
    &&& byte_at(b, at + 4) != 0
    &&& byte_at(b, at + 4) != 0xee
    &&& number_at(b, at + 12, 4) > 0
}

/// The volume is what entry `i` of the boot sector says: where it begins and how long it is,
/// in sectors of 512 bytes, and its type.
pub open spec fn is_boot_entry(b: Seq<u8>, i: int, v: VolumeModel) -> bool {
    let at = 446 + 16 * i;
    let kind = byte_at(b, at + 4);
    &&& v.kind == VolumeKind::Partition
    &&& v.start == 512 * number_at(b, at + 8, 4)
    &&& v.len == 512 * number_at(b, at + 12, 4)
    &&& v.type_hint == Some(
        seq!['0', 'x', hex_char(kind as int / 16), hex_char(kind as int % 16)],
    )
    &&& v.label is None
}

proof fn lemma_number_bound(b: Seq<u8>, i: int, n: int)
    requires
        0 <= n <= 8,
    ensures
        0 <= number_at(b, i, n),
        n <= 4 ==> number_at(b, i, n) <= 0xffff_ffff,
        number_at(b, i, n) <= 0xffff_ffff_ffff_ffff,
{
    reveal_with_fuel(number_at, 9);
}

proof fn lemma_boot_entry(sector: Seq<u8>, b: Seq<u8>, i: int)
    requires
        sector.len() >= 512,
        copied(sector, b, 0),
        0 <= i < 4,
    ensures
        mbr_entry(sector, i) is Some <==> boot_entry_used(b, i),
        mbr_entry(sector, i) matches Some(v) ==> v.index == i && is_boot_entry(b, i, v),
{
    let at = 446 + i * 16;
    lemma_number_in(sector, b, 0, at + 8, 4);
    lemma_number_in(sector, b, 0, at + 12, 4);
    lemma_number_bound(b, at + 8, 4);
    lemma_number_bound(b, at + 12, 4);
    assert(sector[at + 4] == byte_at(b, at + 4));
    let kind = byte_at(b, at + 4);
    assert(kind / 16 < 16 && kind % 16 < 16);
    if let Some(v) = mbr_entry(sector, i) {
        assert(v.type_hint->0 =~= seq![
            '0',
            'x',
            hex_char(kind as int / 16),
            hex_char(kind as int % 16),
        ]);
    }
}

proof fn lemma_boot_sector(src: DynSource, b: Seq<u8>, r: VfsResult<Mbr>)
    requires
        holds_bytes(src, b),
        mbr_parses(src, r),
    ensures
        r is Ok,
        r->Ok_0.parent() == src,
        lists_used(
            r->Ok_0@,
            4,
            |i: int| boot_entry_used(b, i),
            |i: int, v: VolumeModel| is_boot_entry(b, i, v),
        ),
{
    let sector = choose|sector: VfsResult<Seq<u8>>| #[trigger]
        reads_zeroed(src, 0, 512, sector) && match sector {
            Err(e) => r == Err::<Mbr, VfsError>(e),
            Ok(s) => r matches Ok(m) && m.parent() == src && m@ == mbr_volumes(s),
        };
    lemma_read(src, b, 0, 512, sector);
    let s = sector->Ok_0;
    let entry = |i: int| mbr_entry(s, i);
    let used = |i: int| boot_entry_used(b, i);
    let is_entry = |i: int, v: VolumeModel| is_boot_entry(b, i, v);
    crate::partition_laws::mbr_volumes_are_the_entries_in_use(s);
    assert forall|i: int| 0 <= i < 4 implies ((#[trigger] entry(i)) is Some <==> used(i)) && (
    entry(i) matches Some(v) ==> v.index == i && is_entry(i, v)) by {
        lemma_boot_entry(s, b, i);
    }
    lemma_lists_used(entry, mbr_volumes(s), 4, used, is_entry);
}

/// The table of the boot sector of a disk that holds `b`: its four entries, those in use, in
/// order, each as its 16 bytes say.
pub proof fn the_boot_sector_lists_its_partitions(src: DynSource, b: Seq<u8>, r: VfsResult<Mbr>)
    requires
        holds_bytes(src, b),
        call_ensures(Mbr::parse, (src,), r),
    ensures
        r is Ok,
        r->Ok_0.parent() == src,
        lists_used(
            r->Ok_0@,
            4,
            |i: int| boot_entry_used(b, i),
            |i: int, v: VolumeModel| is_boot_entry(b, i, v),
        ),
{
    lemma_boot_sector(src, b, r);
}

/// The boot sector's prober claims a head exactly when it ends in the boot signature and one
/// of the four entries is in use; it is never in doubt.
pub proof fn a_boot_sector_is_known_by_its_bytes(w: WindowModel, c: Confidence)
    requires
        MbrProbe.may_probe(w, c),
    ensures
        c is Yes <==> {
            &&& w.bytes.len() >= 512
            &&& w.bytes[510] == 0x55
            &&& w.bytes[511] == 0xaa
            &&& exists|i: int| 0 <= i < 4 && #[trigger] boot_entry_used(w.bytes, i)
        },
        !(c is Maybe),
{
    let b = w.bytes;
    if b.len() >= 512 {
        let two = b.subrange(510, 512);
        assert(two =~= seq![b[510], b[511]]);
        let mark = seq![0x55u8, 0xaau8];
        if two == mark {
            assert(two[0] == mark[0] && two[1] == mark[1]);
        }
        assert(copied(b, b, 0));
        assert forall|i: int| 0 <= i < 4 implies (#[trigger] mbr_entry(b, i) is Some
            <==> boot_entry_used(b, i)) by {
            lemma_boot_entry(b, b, i);
        }
        if exists|i: int| 0 <= i < 4 && #[trigger] boot_entry_used(b, i) {
            let i = choose|i: int| 0 <= i < 4 && #[trigger] boot_entry_used(b, i);
            assert(mbr_entry(b, i) is Some);
        }
    }
}

// ---------------------------------------------------------------------------
// The GUID partition table
// ---------------------------------------------------------------------------

/// `EFI PART` stands at `i`.
pub open spec fn signed_at(b: Seq<u8>, i: int) -> bool {
    &&& byte_at(b, i) == 0x45
    &&& byte_at(b, i + 1) == 0x46
    &&& byte_at(b, i + 2) == 0x49
    &&& byte_at(b, i + 3) == 0x20
    &&& byte_at(b, i + 4) == 0x50
    &&& byte_at(b, i + 5) == 0x41
    &&& byte_at(b, i + 6) == 0x52
    &&& byte_at(b, i + 7) == 0x54
}

/// How many entries the header has, no more than 256.
pub open spec fn entry_count(b: Seq<u8>) -> int {
    let n = number_at(b, 592, 4);
    if n < 256 {
        n
    } else {
        256
    }
}

/// How long an entry is: as the header says, but no less than 128 and no more than 512.
pub open spec fn entry_len(b: Seq<u8>) -> int {
    let n = number_at(b, 596, 4);
    if n < 128 {
        128
    } else if n < 512 {
        n
    } else {
        512
    }
}

/// Where entry `i` stands on the disk.
pub open spec fn entry_pos(b: Seq<u8>, i: int) -> int {
    512 * number_at(b, 584, 8) + i * entry_len(b)
}

/// Some byte of the 16 at `at` is not zero.
pub open spec fn has_type(b: Seq<u8>, at: int) -> bool {
    exists|k: int| 0 <= k < 16 && #[trigger] byte_at(b, at + k) != 0
}

/// Entry `i` is in use: its type has a byte that is not zero, and its last sector is not
/// before its first.
pub open spec fn guid_entry_used(b: Seq<u8>, i: int) -> bool {
    let at = entry_pos(b, i);
    has_type(b, at) && number_at(b, at + 32, 8) <= number_at(b, at + 40, 8)
}

/// The text is that of the 16 bytes at `at` in hexadecimal.
pub open spec fn is_type_text(b: Seq<u8>, at: int, t: Seq<char>) -> bool {
    &&& t.len() == 32
    &&& forall|k: int|
        0 <= k < 16 ==> t[2 * k] == hex_char((#[trigger] byte_at(b, at + k)) as int / 16) && t[2 * k
            + 1] == hex_char(byte_at(b, at + k) as int % 16)
}

/// The volume is what entry `i` says: it begins at its first sector and ends with its last,
/// in sectors of 512 bytes, and it has the entry's type.
pub open spec fn is_guid_entry(b: Seq<u8>, i: int, v: VolumeModel) -> bool {
    let at = entry_pos(b, i);
    let first = number_at(b, at + 32, 8);
    let last = number_at(b, at + 40, 8);
    &&& v.kind == VolumeKind::Partition
    &&& v.start == at_most_max(512 * first)
    &&& v.len == at_most_max(512 * (last - first + 1))
    &&& v.type_hint is Some
    &&& is_type_text(b, at, v.type_hint->0)
    &&& v.label is None
}

#[verifier::spinoff_prover]
proof fn lemma_type_text(guid: Seq<u8>, b: Seq<u8>, at: int)
    requires
        guid.len() == 16,
        copied(guid, b, at),
    ensures
        is_type_text(b, at, crate::text::chars(crate::text::hex_text(guid))),
{
    let text = crate::text::hex_text(guid);
    let t = crate::text::chars(text);
    crate::text::lemma_hex_text(guid);
    assert forall|k: int| 0 <= k < 16 implies t[2 * k] == hex_char((#[trigger] byte_at(
        b,
        at + k,
    )) as int / 16) && t[2 * k + 1] == hex_char(byte_at(b, at + k) as int % 16) by {
        let g = guid[k];
        assert(g == byte_at(b, at + k));
        assert(g / 16 < 16 && g % 16 < 16);
        assert(g as int / 16 == (g / 16) as int && g as int % 16 == (g % 16) as int);
        assert(text.len() == 32);
        assert(text[2 * k] == crate::text::hex_lower(g / 16));
        assert(text[2 * k + 1] == crate::text::hex_lower(g % 16));
        assert(t[2 * k] == text[2 * k] as char && t[2 * k + 1] == text[2 * k + 1] as char);
    }
}

proof fn lemma_guid_entry(arr: Seq<u8>, b: Seq<u8>, base: int, size: int, n: int, i: int)
    requires
        128 <= size <= 512,
        0 <= i < n,
        arr.len() == n * size,
        copied(arr, b, base),
    ensures
        ({
            let at = base + i * size;
            let first = number_at(b, at + 32, 8);
            let last = number_at(b, at + 40, 8);
            &&& gpt_entry(arr, size, i) is Some <==> has_type(b, at) && first <= last
            &&& gpt_entry(arr, size, i) matches Some(v) ==> {
                &&& v.index == i
                &&& v.kind == VolumeKind::Partition
                &&& v.start == at_most_max(512 * first)
                &&& v.len == at_most_max(512 * (last - first + 1))
                &&& v.type_hint is Some
                &&& is_type_text(b, at, v.type_hint->0)
                &&& v.label is None
            }
        }),
{
    let at = base + i * size;
    assert(0 <= i * size && i * size + size <= n * size) by (nonlinear_arith)
        requires
            0 <= i < n,
            size >= 0,
    ;
    let entry = arr.subrange(i * size, i * size + size);
    assert forall|k: int| 0 <= k < entry.len() implies #[trigger] entry[k] == byte_at(
        b,
        at + k,
    ) by {
        assert(entry[k] == arr[i * size + k]);
    }
    lemma_number_in(entry, b, at, 32, 8);
    lemma_number_in(entry, b, at, 40, 8);
    lemma_number_bound(b, at + 32, 8);
    lemma_number_bound(b, at + 40, 8);
    let guid = entry.take(16);
    assert forall|k: int| 0 <= k < guid.len() implies #[trigger] guid[k] == byte_at(
        b,
        at + k,
    ) by {
        assert(guid[k] == entry[k]);
    }
    let blank = crate::resolver::zeros(16);
    if has_type(b, at) {
        let k = choose|k: int| 0 <= k < 16 && #[trigger] byte_at(b, at + k) != 0;
        assert(guid[k] != blank[k]);
    } else {
        assert forall|k: int| 0 <= k < 16 implies guid[k] == blank[k] by {
            assert(guid[k] == byte_at(b, at + k));
        }
        assert(guid =~= blank);
    }
    lemma_type_text(guid, b, at);
}

proof fn lemma_signature(h: Seq<u8>, b: Seq<u8>, at: int)
    requires
        h.len() >= 8,
        copied(h, b, at),
    ensures
        h.take(8) == crate::partition::gpt_signature() <==> signed_at(b, at),
{
    reveal_strlit("EFI PART");
    let head = h.take(8);
    let mark = crate::partition::gpt_signature();
    assert forall|k: int| 0 <= k < 8 implies #[trigger] head[k] == byte_at(b, at + k) by {
        assert(head[k] == h[k]);
    }
    assert(mark.len() == 8);
    assert(mark[0] == 0x45 && mark[1] == 0x46 && mark[2] == 0x49 && mark[3] == 0x20);
    assert(mark[4] == 0x50 && mark[5] == 0x41 && mark[6] == 0x52 && mark[7] == 0x54);
    if signed_at(b, at) {
        assert(byte_at(b, at + 0) == byte_at(b, at));
        assert(head =~= mark);
    }
    if head == mark {
        assert(head[0] == 0x45 && head[1] == 0x46 && head[2] == 0x49 && head[3] == 0x20);
        assert(head[4] == 0x50 && head[5] == 0x41 && head[6] == 0x52 && head[7] == 0x54);
    }
}

proof fn lemma_guid_table(src: DynSource, b: Seq<u8>, r: VfsResult<Gpt>)
    requires
        holds_bytes(src, b),
        gpt_parses(src, r),
    ensures
        r is Ok <==> signed_at(b, 512),
        r matches Ok(g) ==> {
            &&& g.parent() == src
            &&& lists_used(
                g@,
                entry_count(b),
                |i: int| guid_entry_used(b, i),
                |i: int, v: VolumeModel| is_guid_entry(b, i, v),
            )
        },
{
    let header = choose|header: VfsResult<Seq<u8>>| #[trigger]
        reads_zeroed(src, 512, 512, header) && match header {
            Err(e) => r == Err::<Gpt, VfsError>(e),
            Ok(h) => if h.take(8) != crate::partition::gpt_signature() {
                r matches Err(e) && crate::partition::is_unsigned_header(e, h)
            } else {
                gpt_entries_parse(src, h, r)
            },
        };
    lemma_read(src, b, 512, 512, header);
    let h = header->Ok_0;
    lemma_signature(h, b, 512);
    if signed_at(b, 512) {
        let n = gpt_entry_count(h);
        let size = gpt_entry_size(h);
        lemma_number_in(h, b, 512, 72, 8);
        lemma_number_in(h, b, 512, 80, 4);
        lemma_number_in(h, b, 512, 84, 4);
        lemma_number_bound(b, 592, 4);
        lemma_number_bound(b, 596, 4);
        lemma_number_bound(b, 584, 8);
        assert(n == entry_count(b));
        assert(size == entry_len(b));
        let base = 512 * number_at(b, 584, 8);
        let offset = capped(le_at(h, 72, 8) as int * 512);
        let arr = choose|arr: VfsResult<Seq<u8>>| #[trigger]
            reads_zeroed(src, offset, n * size, arr) && match arr {
                Err(e) => r == Err::<Gpt, VfsError>(e),
                Ok(a) => r matches Ok(g) && g.parent() == src && g@ == gpt_volumes(a, size, n),
            };
        assert(0 <= n * size) by (nonlinear_arith)
            requires
                n >= 0,
                size >= 0,
        ;
        lemma_read(src, b, offset, n * size, arr);
        let a = arr->Ok_0;
        assert(copied(a, b, base)) by {
            assert forall|k: int| 0 <= k < a.len() implies #[trigger] a[k] == byte_at(
                b,
                base + k,
            ) by {
                assert(a[k] == byte_at(b, offset + k));
            }
        }
        let entry = |i: int| gpt_entry(a, size, i);
        let used = |i: int| guid_entry_used(b, i);
        let is_entry = |i: int, v: VolumeModel| is_guid_entry(b, i, v);
        crate::partition_laws::gpt_volumes_are_the_entries_in_use(a, size, n);
        assert forall|i: int| 0 <= i < n implies ((#[trigger] entry(i)) is Some <==> used(i)) && (
        entry(i) matches Some(v) ==> v.index == i && is_entry(i, v)) by {
            lemma_guid_entry(a, b, base, size, n, i);
            assert(entry_pos(b, i) == base + i * size);
        }
        lemma_lists_used(entry, gpt_volumes(a, size, n), n, used, is_entry);
    }
}

/// The GUID partition table of a disk that holds `b`: it is one exactly when `EFI PART`
/// stands at the second sector, and then lists, in order, every entry whose type has a byte
/// that is not zero and whose last sector is not before its first, each as its bytes say.
pub proof fn the_guid_table_lists_its_partitions(src: DynSource, b: Seq<u8>, r: VfsResult<Gpt>)
    requires
        holds_bytes(src, b),
        call_ensures(Gpt::parse, (src,), r),
    ensures
        r is Ok <==> signed_at(b, 512),
        r matches Ok(g) ==> {
            &&& g.parent() == src
            &&& lists_used(
                g@,
                entry_count(b),
                |i: int| guid_entry_used(b, i),
                |i: int, v: VolumeModel| is_guid_entry(b, i, v),
            )
        },
{
    lemma_guid_table(src, b, r);
}

/// The GUID table's prober claims a head exactly when it holds the signature at its second
/// sector; it is never in doubt.
pub proof fn a_guid_table_is_known_by_its_signature(w: WindowModel, c: Confidence)
    requires
        GptProbe.may_probe(w, c),
    ensures
        c is Yes <==> signed_at(w.bytes, 512),
        !(c is Maybe),
{
    let b = w.bytes;
    reveal_strlit("EFI PART");
    let mark = crate::partition::gpt_signature();
    assert(mark.len() == 8);
    if b.len() >= 520 {
        let h = b.subrange(512, 520);
        assert(copied(h, b, 512)) by {
            assert forall|k: int| 0 <= k < h.len() implies #[trigger] h[k] == byte_at(
                b,
                512 + k,
            ) by {}
        }
        lemma_signature(h, b, 512);
        assert(h.take(8) =~= h);
    }
}

// ---------------------------------------------------------------------------
// Volumes
// ---------------------------------------------------------------------------

/// The answer to opening a volume of a disk that holds `b`: the bytes that its description
/// names, cut at the end of the disk; an error that names the index where there is no such
/// volume.
pub open spec fn opens_part(
    volumes: Seq<VolumeModel>,
    b: Seq<u8>,
    index: usize,
    r: VfsResult<DynSource>,
) -> bool {
    if index < volumes.len() {
        r matches Ok(d) && holds_bytes(
            d,
            part_of(b, volumes[index as int].start as int, volumes[index as int].len as int),
        )
    } else {
        r matches Err(VfsError::OutOfRange { offset, len, bound, .. }) && offset == index && len
            == 1 && bound == volumes.len()
    }
}

proof fn lemma_opens_part(parent: DynSource, b: Seq<u8>, desc: VolumeModel, d: DynSource)
    requires
        holds_bytes(parent, b),
        opens_window(parent, desc, d),
    ensures
        holds_bytes(d, part_of(b, desc.start as int, desc.len as int)),
{
    let (w, n) = choose|w: SubRange, n: u64|
        {
            &&& #[trigger] shares(d, w)
            &&& #[trigger] parent.inner.may_len(n)
            &&& w.parent() == parent
            &&& w.base() == desc.start
            &&& w.window_len() == clamped(desc.start, desc.len, n)
        };
    assert(parent.inner.may_len(n) && w.window_len() == clamped(desc.start, desc.len, n));
    lemma_window(parent, b, desc.start, desc.len, w, d);
}

/// A partition of the boot sector's table holds the bytes that its entry names.
pub proof fn a_boot_partition_holds_its_bytes(
    m: Mbr,
    b: Seq<u8>,
    index: usize,
    r: VfsResult<DynSource>,
)
    requires
        holds_bytes(m.parent(), b),
        m.may_open_volume(index, r),
    ensures
        opens_part(m@, b, index, r),
{
    if index < m@.len() {
        lemma_opens_part(m.parent(), b, m@[index as int], r->Ok_0);
    }
}

/// A partition of a GUID table holds the bytes that its entry names.
pub proof fn a_guid_partition_holds_its_bytes(
    g: Gpt,
    b: Seq<u8>,
    index: usize,
    r: VfsResult<DynSource>,
)
    requires
        holds_bytes(g.parent(), b),
        g.may_open_volume(index, r),
    ensures
        opens_part(g@, b, index, r),
{
    if index < g@.len() {
        lemma_opens_part(g.parent(), b, g@[index as int], r->Ok_0);
    }
}

/// The description says what the volume is.
pub open spec fn describes(d: VolumeDesc, v: VolumeModel) -> bool {
    &&& d.index == v.index
    &&& d.kind == v.kind
    &&& d.start == v.start
    &&& d.len == v.len
    &&& match (d.type_hint, v.type_hint) {
        (Some(a), Some(b)) => a@ == b,
        (None, None) => true,
        _ => false,
    }
    &&& match (d.label, v.label) {
        (Some(a), Some(b)) => a@ == b,
        (None, None) => true,
        _ => false,
    }
}

/// The volume system describes these volumes of a disk that holds `b`, and opens them.
pub open spec fn serves(
    sys: VfsResult<Box<dyn VolumeSystem>>,
    b: Seq<u8>,
    volumes: Seq<VolumeModel>,
) -> bool {
    &&& sys is Ok
    &&& forall|v: Seq<VolumeDesc>| #[trigger]
        sys->Ok_0.may_volumes(v) ==> v.len() == volumes.len() && forall|k: int|
            0 <= k < v.len() ==> describes(#[trigger] v[k], volumes[k])
    &&& forall|index: usize, r: VfsResult<DynSource>| #[trigger]
        sys->Ok_0.may_open_volume(index, r) ==> opens_part(volumes, b, index, r)
}

proof fn lemma_described(v: Seq<VolumeDesc>, volumes: Seq<VolumeModel>)
    requires
        volume_models(v) == volumes,
    ensures
        v.len() == volumes.len(),
        forall|k: int| 0 <= k < v.len() ==> describes(#[trigger] v[k], volumes[k]),
{
    assert forall|k: int| 0 <= k < v.len() implies describes(#[trigger] v[k], volumes[k]) by {
        assert(volume_models(v)[k] == v[k]@);
    }
}

/// Opened by the engine's own prober, the table of the boot sector describes the partitions
/// that the bytes of the disk say, and each opens as its bytes.
pub proof fn the_boot_sector_serves_its_partitions(
    src: DynSource,
    b: Seq<u8>,
    r: VfsResult<Box<dyn VolumeSystem>>,
)
    requires
        holds_bytes(src, b),
        MbrProbe.may_open(src, r),
    ensures
        exists|volumes: Seq<VolumeModel>| #[trigger]
            serves(r, b, volumes) && lists_used(
                volumes,
                4,
                |i: int| boot_entry_used(b, i),
                |i: int, v: VolumeModel| is_boot_entry(b, i, v),
            ),
{
    let parsed = choose|parsed: VfsResult<Mbr>| #[trigger]
        mbr_parses(src, parsed) && match parsed {
            Err(e) => r == Err::<Box<dyn VolumeSystem>, VfsError>(e),
            Ok(m) => stands_for(r, m),
        };
    lemma_boot_sector(src, b, parsed);
    let m = parsed->Ok_0;
    assert forall|v: Seq<VolumeDesc>| #[trigger] r->Ok_0.may_volumes(v) implies v.len() == m@.len()
        && forall|k: int| 0 <= k < v.len() ==> describes(#[trigger] v[k], m@[k]) by {
        assert(m.may_volumes(v));
        lemma_described(v, m@);
    }
    assert forall|index: usize, o: VfsResult<DynSource>| #[trigger]
        r->Ok_0.may_open_volume(index, o) implies opens_part(m@, b, index, o) by {
        assert(m.may_open_volume(index, o));
        a_boot_partition_holds_its_bytes(m, b, index, o);
    }
    assert(serves(r, b, m@));
}

/// Opened by the engine's own prober, a GUID table describes the partitions that the bytes
/// of the disk say, and each opens as its bytes; without the signature it does not open.
pub proof fn the_guid_table_serves_its_partitions(
    src: DynSource,
    b: Seq<u8>,
    r: VfsResult<Box<dyn VolumeSystem>>,
)
    requires
        holds_bytes(src, b),
        GptProbe.may_open(src, r),
    ensures
        r is Ok <==> signed_at(b, 512),
        r is Ok ==> exists|volumes: Seq<VolumeModel>| #[trigger]
            serves(r, b, volumes) && lists_used(
                volumes,
                entry_count(b),
                |i: int| guid_entry_used(b, i),
                |i: int, v: VolumeModel| is_guid_entry(b, i, v),
            ),
{
    let parsed = choose|parsed: VfsResult<Gpt>| #[trigger]
        gpt_parses(src, parsed) && match parsed {
            Err(e) => r == Err::<Box<dyn VolumeSystem>, VfsError>(e),
            Ok(g) => stands_for(r, g),
        };
    lemma_guid_table(src, b, parsed);
    if let Ok(g) = parsed {
        assert forall|v: Seq<VolumeDesc>| #[trigger] r->Ok_0.may_volumes(v) implies v.len()
            == g@.len() && forall|k: int| 0 <= k < v.len() ==> describes(
            #[trigger] v[k],
            g@[k],
        ) by {
            assert(g.may_volumes(v));
            lemma_described(v, g@);
        }
        assert forall|index: usize, o: VfsResult<DynSource>| #[trigger]
            r->Ok_0.may_open_volume(index, o) implies opens_part(g@, b, index, o) by {
            assert(g.may_open_volume(index, o));
            a_guid_partition_holds_its_bytes(g, b, index, o);
        }
        assert(serves(r, b, g@));
    }
}

} // verus!

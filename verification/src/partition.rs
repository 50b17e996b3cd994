//! The partition tables: the classic table of four entries in the boot sector (MBR)
//! and the GUID partition table (GPT).

use vstd::prelude::*;
use vstd::slice::slice_subrange;

use crate::adapters::{clamped, shares, SubRange};
use crate::error::{SmallHex, VfsError, VfsResult};
use crate::read::{le_at, le_u32, le_u64};
use crate::registry::{piece, Confidence, SniffWindow, VolumeSystemProbe, WindowModel};
use crate::resolver::zeros;
use crate::source::DynSource;
use crate::text::{
    ascii, ascii_string, chars, hex_lower, hex_text, lemma_hex_text_ascii, literal,
    push_hex, push_hex_text, same_bytes,
};
use crate::volume::{
    volume_models, VolumeDesc, VolumeKind, VolumeModel, VolumeScheme, VolumeSystem,
};

verus! {

broadcast use vstd::seq::group_seq_axioms;

/// The entries that are in use, in order, of the first `n` of a table.
pub open spec fn in_use(entry: spec_fn(int) -> Option<VolumeModel>, n: int) -> Seq<VolumeModel>
    decreases n,
{
    if n <= 0 {
        Seq::empty()
    } else {
        let before = in_use(entry, n - 1);
        match entry(n - 1) {
            Some(v) => before.push(v),
            None => before,
        }
    }
}

/// Reading into a zeroed buffer of `n` bytes may fill it with `buf`, or fail; a read
/// that comes short leaves the zeros.
pub open spec fn reads_zeroed(
    src: DynSource,
    offset: u64,
    n: int,
    buf: VfsResult<Seq<u8>>,
) -> bool {
    exists|filled: Seq<u8>, got: VfsResult<usize>|
        {
            &&& #[trigger] src.inner.may_read(offset, zeros(n), filled, got)
            &&& filled.len() == n
            &&& buf == match got {
                Ok(_) => Ok(filled),
                Err(e) => Err::<Seq<u8>, VfsError>(e),
            }
        }
}

fn read_zeroed(src: &DynSource, offset: u64, n: usize) -> (r: VfsResult<Vec<u8>>)
    ensures
        match r {
            Ok(buf) => reads_zeroed(*src, offset, n as int, Ok(buf@)),
            Err(e) => reads_zeroed(*src, offset, n as int, Err(e)),
        },
{
    let mut buf: Vec<u8> = vec![0u8; n];
    assert(buf@ =~= zeros(n as int));
    let got = src.inner.read_at(offset, buf.as_mut_slice());
    assert(src.inner.may_read(offset, zeros(n as int), buf@, got));
    match got {
        Ok(_) => Ok(buf),
        Err(e) => Err(e),
    }
}

/// The volume at `desc` of `parent` may be opened as `d`: the window of the parent that
/// the description names, clamped to the parent's length.
pub open spec fn opens_window(parent: DynSource, desc: VolumeModel, d: DynSource) -> bool {
    exists|w: SubRange, n: u64|
        {
            &&& #[trigger] shares(d, w)
            &&& #[trigger] parent.inner.may_len(n)
            &&& w.parent() == parent
            &&& w.base() == desc.start
            &&& w.window_len() == clamped(desc.start, desc.len, n)
        }
}

/// Opening volume `index` of a table may give `r`; `what` names the table in the error
/// for a volume that it does not have.
pub open spec fn opens_volume(
    parent: DynSource,
    volumes: Seq<VolumeModel>,
    what: Seq<char>,
    index: usize,
    r: VfsResult<DynSource>,
) -> bool {
    if index < volumes.len() {
        r matches Ok(d) && opens_window(parent, volumes[index as int], d)
    } else {
        r matches Err(e) && (e matches VfsError::OutOfRange {
            what: w,
            offset,
            len,
            bound,
        } && w@ == what && offset == index && len == 1 && bound == volumes.len())
    }
}

fn open_window(
    parent: &DynSource,
    volumes: &Vec<VolumeDesc>,
    what: &'static str,
    index: usize,
) -> (r: VfsResult<DynSource>)
    ensures
        opens_volume(*parent, volume_models(volumes@), what@, index, r),
{
    if index < volumes.len() {
        let desc = &volumes[index];
        let window = SubRange::new(parent.clone(), desc.start, desc.len);
        let ghost w = window;
        let d = window.into_source();
        proof {
            let n = choose|n: u64| #[trigger]
                parent.inner.may_len(n) && w.window_len() == clamped(desc.start, desc.len, n);
            assert(shares(d, w));
            assert(opens_window(*parent, volume_models(volumes@)[index as int], d));
        }
        Ok(d)
    } else {
        Err(
            VfsError::OutOfRange {
                what,
                offset: index as u64,
                len: 1,
                bound: volumes.len() as u64,
            },
        )
    }
}

// ---------------------------------------------------------------------------
// MBR
// ---------------------------------------------------------------------------

/// The type of a partition that stands for a GUID partition table.
pub const PROTECTIVE: u8 = 0xEE;

/// The text of a partition type: `0x` and two hexadecimal digits.
pub open spec fn type_text(ptype: u8) -> Seq<char> {
    seq!['0', 'x', hex_lower(ptype / 16) as char, hex_lower(ptype % 16) as char]
}

fn type_hint(ptype: u8) -> (r: String)
    ensures
        r@ == type_text(ptype),
{
    let mut out: Vec<u8> = Vec::new();
    out.push(0x30);
    out.push(0x78);
    push_hex(&mut out, ptype);
    let r = ascii_string(out);
    assert(r@ =~= type_text(ptype));
    r
}

/// The type byte of entry `i` of the table in the boot sector.
pub open spec fn mbr_type(sector: Seq<u8>, i: int) -> u8 {
    sector[446 + i * 16 + 4]
}

/// Entry `i` of the table in the boot sector, where it is in use.
pub open spec fn mbr_entry(sector: Seq<u8>, i: int) -> Option<VolumeModel> {
    let base = 446 + i * 16;
    let ptype = mbr_type(sector, i);
    let size = le_at(sector, base + 12, 4);
    if ptype == 0 || ptype == PROTECTIVE || size == 0 {
        None
    } else {
        Some(
            VolumeModel {
                index: i,
                kind: VolumeKind::Partition,
                start: (le_at(sector, base + 8, 4) * 512) as u64,
                len: (size * 512) as u64,
                type_hint: Some(type_text(ptype)),
                label: None,
            },
        )
    }
}

/// The volumes of the table in the boot sector.
pub open spec fn mbr_volumes(sector: Seq<u8>) -> Seq<VolumeModel> {
    in_use(|i: int| mbr_entry(sector, i), 4)
}

/// The bytes end in the boot signature and hold a plausible partition entry.
pub open spec fn is_mbr(bytes: Seq<u8>) -> bool {
    &&& piece(bytes, 510, 2) == Some(seq![0x55u8, 0xaau8])
    &&& exists|i: int| 0 <= i < 4 && #[trigger] mbr_entry(bytes, i) is Some
}

/// Parsing the boot sector of `src` may give `r`.
pub open spec fn mbr_parses(src: DynSource, r: VfsResult<Mbr>) -> bool {
    exists|sector: VfsResult<Seq<u8>>| #[trigger]
        reads_zeroed(src, 0, 512, sector) && match sector {
            Err(e) => r == Err::<Mbr, VfsError>(e),
            Ok(s) => r matches Ok(m) && m.parent() == src && m@ == mbr_volumes(s),
        }
}

/// A parsed table of the boot sector: the parent source and its primary partitions.
/// Extended partitions are not followed.
pub struct Mbr {
    parent: DynSource,
    volumes: Vec<VolumeDesc>,
}

impl View for Mbr {
    type V = Seq<VolumeModel>;

    closed spec fn view(&self) -> Seq<VolumeModel> {
        volume_models(self.volumes@)
    }
}

/// Entry `i` of the table, where it is in use.
fn mbr_entry_at(sector: &[u8], i: usize) -> (r: Option<VolumeDesc>)
    requires
        i < 4,
        sector@.len() >= 512,
    ensures
        match r {
            Some(v) => mbr_entry(sector@, i as int) == Some(v@),
            None => mbr_entry(sector@, i as int) is None,
        },
{
    let base: usize = 446 + i * 16;
    let ptype: u8 = sector[base + 4];
    let start_lba: u32 = le_u32(sector, base + 8);
    let size: u32 = le_u32(sector, base + 12);
    if ptype == 0 || ptype == PROTECTIVE || size == 0 {
        None
    } else {
        Some(
            VolumeDesc {
                index: i,
                kind: VolumeKind::Partition,
                start: start_lba as u64 * 512,
                len: size as u64 * 512,
                type_hint: Some(type_hint(ptype)),
                label: None,
            },
        )
    }
}

impl Mbr {
    /// The source that holds the table.
    pub closed spec fn parent(&self) -> DynSource {
        self.parent
    }

    /// Read and parse the boot sector.
    pub fn parse(src: DynSource) -> (r: VfsResult<Self>)
        ensures
            mbr_parses(src, r),
    {
        let sector = match read_zeroed(&src, 0, 512) {
            Err(e) => {
                return Err(e);
            },
            Ok(s) => s,
        };
        let ghost entry = |i: int| mbr_entry(sector@, i);
        let mut volumes: Vec<VolumeDesc> = Vec::new();
        let mut i: usize = 0;
        assert(volume_models(volumes@) =~= Seq::empty());
        while i < 4
            invariant
                0 <= i <= 4,
                sector@.len() == 512,
                entry == (|i: int| mbr_entry(sector@, i)),
                volume_models(volumes@) == in_use(entry, i as int),
            decreases 4 - i,
        {
            let ghost before = volumes@;
            match mbr_entry_at(sector.as_slice(), i) {
                Some(v) => {
                    volumes.push(v);
                    assert(volume_models(volumes@) =~= volume_models(before).push(v@));
                },
                None => {},
            }
            i = i + 1;
        }
        let m = Mbr { parent: src, volumes };
        Ok(m)
    }
}

impl VolumeSystem for Mbr {
    open spec fn may_volumes(&self, v: Seq<VolumeDesc>) -> bool {
        volume_models(v) == self@
    }

    open spec fn may_open_volume(&self, index: usize, r: VfsResult<DynSource>) -> bool {
        opens_volume(self.parent(), self@, "mbr volume index"@, index, r)
    }

    fn scheme(&self) -> (s: VolumeScheme)
        ensures
            s == VolumeScheme::Mbr,
    {
        VolumeScheme::Mbr
    }

    fn volumes(&self) -> (r: &[VolumeDesc]) {
        self.volumes.as_slice()
    }

    fn open_volume(&self, index: usize) -> (r: VfsResult<DynSource>) {
        open_window(&self.parent, &self.volumes, "mbr volume index", index)
    }
}

/// Recognizes the table of the boot sector.
pub struct MbrProbe;

/// The prober's verdict is a definite one: `Yes`, for the reason `how`, exactly when
/// `found`.
pub open spec fn decides(c: Confidence, found: bool, how: Seq<char>) -> bool {
    match c {
        Confidence::No => !found,
        Confidence::Maybe => false,
        Confidence::Yes { how: h } => found && h@ == how,
    }
}

/// The volume system `vs` answers as `m` does.
pub open spec fn stands_for<V: VolumeSystem>(vs: VfsResult<Box<dyn VolumeSystem>>, m: V) -> bool {
    &&& vs is Ok
    &&& forall|v: Seq<VolumeDesc>| #[trigger] vs->Ok_0.may_volumes(v) <==> m.may_volumes(v)
    &&& forall|index: usize, r: VfsResult<DynSource>| #[trigger]
        vs->Ok_0.may_open_volume(index, r) <==> m.may_open_volume(index, r)
}

impl VolumeSystemProbe for MbrProbe {
    open spec fn may_scheme(&self, s: VolumeScheme) -> bool {
        s == VolumeScheme::Mbr
    }

    open spec fn may_probe(&self, w: WindowModel, c: Confidence) -> bool {
        decides(c, is_mbr(w.bytes), "MBR partition table"@)
    }

    open spec fn may_open(&self, src: DynSource, r: VfsResult<Box<dyn VolumeSystem>>) -> bool {
        exists|parsed: VfsResult<Mbr>| #[trigger]
            mbr_parses(src, parsed) && match parsed {
                Err(e) => r == Err::<Box<dyn VolumeSystem>, VfsError>(e),
                Ok(m) => stands_for(r, m),
            }
    }

    fn scheme(&self) -> (s: VolumeScheme) {
        VolumeScheme::Mbr
    }

    fn probe(&self, w: &SniffWindow) -> (c: Confidence) {
        let bytes = w.bytes();
        let signed = match w.at(510, 2) {
            Some(s) => s[0] == 0x55 && s[1] == 0xaa,
            None => false,
        };
        proof {
            let s = bytes@.subrange(510, 512);
            if bytes@.len() >= 512 {
                assert(s =~= seq![s[0], s[1]]);
            }
        }
        if !signed {
            return Confidence::No;
        }
        let mut i: usize = 0;
        while i < 4
            invariant
                0 <= i <= 4,
                bytes@.len() >= 512,
                bytes@ == w@.bytes,
                piece(bytes@, 510, 2) == Some(seq![0x55u8, 0xaau8]),
                forall|k: int| 0 <= k < i ==> #[trigger] mbr_entry(bytes@, k) is None,
            decreases 4 - i,
        {
            match mbr_entry_at(bytes, i) {
                Some(_) => {
                    return Confidence::Yes { how: "MBR partition table" };
                },
                None => {},
            }
            i = i + 1;
        }
        Confidence::No
    }

    fn open(&self, src: DynSource) -> (r: VfsResult<Box<dyn VolumeSystem>>) {
        let parsed = Mbr::parse(src);
        let ghost answer = parsed;
        match parsed {
            Err(e) => {
                assert(mbr_parses(src, answer));
                Err(e)
            },
            Ok(m) => {
                let ghost held = m;
                let r: VfsResult<Box<dyn VolumeSystem>> = Ok(Box::new(m));
                proof {
                    assert(mbr_parses(src, answer));
                    assert(stands_for(r, held));
                }
                r
            },
        }
    }
}

// ---------------------------------------------------------------------------
// GPT
// ---------------------------------------------------------------------------

/// At most this many entries of a table are read.
pub const GPT_MAX_ENTRIES: u32 = 256;

/// A number, at most `u64::MAX`.
pub open spec fn capped(n: int) -> u64 {
    if n <= u64::MAX {
        n as u64
    } else {
        u64::MAX
    }
}

/// The signature of the header.
pub open spec fn gpt_signature() -> Seq<u8> {
    ascii("EFI PART"@)
}

/// Entry `i`, of `size` bytes, of the entry array, where it is in use: its type is not
/// all zero and its last sector is not before its first.
pub open spec fn gpt_entry(arr: Seq<u8>, size: int, i: int) -> Option<VolumeModel> {
    let entry = arr.subrange(i * size, i * size + size);
    let guid = entry.take(16);
    let first: int = le_at(entry, 32, 8) as int;
    let last: int = le_at(entry, 40, 8) as int;
    if guid == zeros(16) || last < first {
        None
    } else {
        Some(
            VolumeModel {
                index: i,
                kind: VolumeKind::Partition,
                start: capped(first * 512),
                len: capped((last - first + 1) * 512),
                type_hint: Some(chars(hex_text(guid))),
                label: None,
            },
        )
    }
}

/// The volumes of an entry array of `n` entries of `size` bytes.
pub open spec fn gpt_volumes(arr: Seq<u8>, size: int, n: int) -> Seq<VolumeModel> {
    in_use(|i: int| gpt_entry(arr, size, i), n)
}

/// How many entries the header asks for, capped.
pub open spec fn gpt_entry_count(header: Seq<u8>) -> int {
    let n = le_at(header, 80, 4);
    if n <= GPT_MAX_ENTRIES {
        n as int
    } else {
        GPT_MAX_ENTRIES as int
    }
}

/// The length of an entry that the header asks for, between 128 and 512.
pub open spec fn gpt_entry_size(header: Seq<u8>) -> int {
    let n = le_at(header, 84, 4);
    if n < 128 {
        128
    } else if n > 512 {
        512
    } else {
        n as int
    }
}

/// The error of a header without the signature, which carries its first bytes.
pub open spec fn is_unsigned_header(e: VfsError, header: Seq<u8>) -> bool {
    e matches VfsError::Decode { layer, offset, detail, bytes } && layer@ == "gpt"@ && offset == 512
        && detail@ == "missing EFI PART signature"@ && bytes@ == header.take(8)
}

/// Parsing the table of `src` may give `r`: the header in the second sector is read,
/// then the entry array that it names.
pub open spec fn gpt_parses(src: DynSource, r: VfsResult<Gpt>) -> bool {
    exists|header: VfsResult<Seq<u8>>| #[trigger]
        reads_zeroed(src, 512, 512, header) && match header {
            Err(e) => r == Err::<Gpt, VfsError>(e),
            Ok(h) => if h.take(8) != gpt_signature() {
                r matches Err(e) && is_unsigned_header(e, h)
            } else {
                gpt_entries_parse(src, h, r)
            },
        }
}

/// Parsing the entry array that `header` names may give `r`.
pub open spec fn gpt_entries_parse(src: DynSource, header: Seq<u8>, r: VfsResult<Gpt>) -> bool {
    let n = gpt_entry_count(header);
    let size = gpt_entry_size(header);
    exists|arr: VfsResult<Seq<u8>>| #[trigger]
        reads_zeroed(src, capped(le_at(header, 72, 8) as int * 512), n * size, arr) && match arr {
            Err(e) => r == Err::<Gpt, VfsError>(e),
            Ok(a) => r matches Ok(g) && g.parent() == src && g@ == gpt_volumes(a, size, n),
        }
}

/// A parsed GUID partition table: the parent source and its partitions.
pub struct Gpt {
    parent: DynSource,
    volumes: Vec<VolumeDesc>,
}

impl View for Gpt {
    type V = Seq<VolumeModel>;

    closed spec fn view(&self) -> Seq<VolumeModel> {
        volume_models(self.volumes@)
    }
}

/// The length of `sectors` sectors, at most `u64::MAX`.
fn sector_bytes(sectors: u64) -> (r: u64)
    ensures
        r == capped(sectors * 512),
{
    if sectors <= u64::MAX / 512 {
        sectors * 512
    } else {
        u64::MAX
    }
}

/// The bytes of a GUID in hexadecimal.
fn guid_hint(bytes: &[u8]) -> (r: String)
    ensures
        r@ == chars(hex_text(bytes@)),
{
    let mut out: Vec<u8> = Vec::new();
    push_hex_text(&mut out, bytes);
    assert(out@ =~= hex_text(bytes@));
    proof {
        lemma_hex_text_ascii(bytes@);
    }
    ascii_string(out)
}

fn all_zero(bytes: &[u8]) -> (r: bool)
    ensures
        r == (bytes@ == zeros(bytes@.len() as int)),
{
    let mut i: usize = 0;
    while i < bytes.len()
        invariant
            0 <= i <= bytes.len(),
            forall|k: int| 0 <= k < i ==> bytes@[k] == 0,
        decreases bytes.len() - i,
    {
        if bytes[i] != 0 {
            assert(zeros(bytes@.len() as int)[i as int] == 0);
            return false;
        }
        i = i + 1;
    }
    assert(bytes@ =~= zeros(bytes@.len() as int));
    true
}

/// Entry `i` of the array, where it is in use.
fn gpt_entry_at(arr: &[u8], size: usize, i: usize) -> (r: Option<VolumeDesc>)
    requires
        i < GPT_MAX_ENTRIES,
        128 <= size <= 512,
        i * size + size <= arr@.len(),
    ensures
        match r {
            Some(v) => gpt_entry(arr@, size as int, i as int) == Some(v@),
            None => gpt_entry(arr@, size as int, i as int) is None,
        },
{
    assert(0 <= i * size <= 256 * 512) by (nonlinear_arith)
        requires
            0 <= i <= 256,
            0 <= size <= 512,
    ;
    let base: usize = i * size;
    let entry = slice_subrange(arr, base, base + size);
    let guid = slice_subrange(entry, 0, 16);
    assert(guid@ =~= entry@.take(16));
    if all_zero(guid) {
        return None;
    }
    let first: u64 = le_u64(entry, 32);
    let last: u64 = le_u64(entry, 40);
    if last < first {
        return None;
    }
    let sectors: u64 = (last - first).saturating_add(1);
    Some(
        VolumeDesc {
            index: i,
            kind: VolumeKind::Partition,
            start: sector_bytes(first),
            len: sector_bytes(sectors),
            type_hint: Some(guid_hint(guid)),
            label: None,
        },
    )
}

impl Gpt {
    /// The source that holds the table.
    pub closed spec fn parent(&self) -> DynSource {
        self.parent
    }

    /// Read and parse the header and the entry array. The number of entries and their
    /// length are capped before anything is allocated.
    pub fn parse(src: DynSource) -> (r: VfsResult<Self>)
        ensures
            gpt_parses(src, r),
    {
        let header = match read_zeroed(&src, 512, 512) {
            Err(e) => {
                return Err(e);
            },
            Ok(h) => h,
        };
        proof {
            reveal_strlit("EFI PART");
        }
        let head = slice_subrange(header.as_slice(), 0, 8);
        assert(head@ =~= header@.take(8));
        if !same_bytes(head, literal("EFI PART")) {
            let bytes = SmallHex::new(head);
            assert(bytes@ =~= header@.take(8));
            return Err(
                VfsError::Decode {
                    layer: "gpt",
                    offset: 512,
                    detail: String::from_str("missing EFI PART signature"),
                    bytes,
                },
            );
        }
        let entries_lba: u64 = le_u64(header.as_slice(), 72);
        let asked: u32 = le_u32(header.as_slice(), 80);
        let n: usize = if asked <= GPT_MAX_ENTRIES {
            asked as usize
        } else {
            GPT_MAX_ENTRIES as usize
        };
        let asked_size: u32 = le_u32(header.as_slice(), 84);
        let size: usize = if asked_size < 128 {
            128
        } else if asked_size > 512 {
            512
        } else {
            asked_size as usize
        };
        assert(0 <= n * size <= 256 * 512) by (nonlinear_arith)
            requires
                0 <= n <= 256,
                0 <= size <= 512,
        ;
        let offset: u64 = sector_bytes(entries_lba);
        assert(offset == capped(le_at(header@, 72, 8) as int * 512));
        let total: usize = n * size;
        assert(n == gpt_entry_count(header@));
        assert(size == gpt_entry_size(header@));
        assert(total == gpt_entry_count(header@) * gpt_entry_size(header@));
        let arr = match read_zeroed(&src, offset, total) {
            Err(e) => {
                assert(reads_zeroed(
                    src,
                    capped(le_at(header@, 72, 8) as int * 512),
                    gpt_entry_count(header@) * gpt_entry_size(header@),
                    Err(e),
                ));
                assert(gpt_entries_parse(src, header@, Err(e)));
                return Err(e);
            },
            Ok(a) => a,
        };
        let ghost entry = |i: int| gpt_entry(arr@, size as int, i);
        let mut volumes: Vec<VolumeDesc> = Vec::new();
        let mut i: usize = 0;
        assert(volume_models(volumes@) =~= Seq::empty());
        while i < n
            invariant
                0 <= i <= n <= GPT_MAX_ENTRIES,
                128 <= size <= 512,
                arr@.len() == n * size,
                entry == (|i: int| gpt_entry(arr@, size as int, i)),
                volume_models(volumes@) == in_use(entry, i as int),
            decreases n - i,
        {
            let ghost before = volumes@;
            assert(i * size + size <= n * size) by (nonlinear_arith)
                requires
                    0 <= i,
                    i + 1 <= n,
                    size >= 0,
            ;
            match gpt_entry_at(arr.as_slice(), size, i) {
                Some(v) => {
                    volumes.push(v);
                    assert(volume_models(volumes@) =~= volume_models(before).push(v@));
                },
                None => {},
            }
            i = i + 1;
        }
        let g = Gpt { parent: src, volumes };
        assert(reads_zeroed(
            src,
            capped(le_at(header@, 72, 8) as int * 512),
            gpt_entry_count(header@) * gpt_entry_size(header@),
            Ok(arr@),
        ));
        assert(gpt_entries_parse(src, header@, Ok(g)));
        Ok(g)
    }
}

impl VolumeSystem for Gpt {
    open spec fn may_volumes(&self, v: Seq<VolumeDesc>) -> bool {
        volume_models(v) == self@
    }

    open spec fn may_open_volume(&self, index: usize, r: VfsResult<DynSource>) -> bool {
        opens_volume(self.parent(), self@, "gpt volume index"@, index, r)
    }

    fn scheme(&self) -> (s: VolumeScheme)
        ensures
            s == VolumeScheme::Gpt,
    {
        VolumeScheme::Gpt
    }

    fn volumes(&self) -> (r: &[VolumeDesc]) {
        self.volumes.as_slice()
    }

    fn open_volume(&self, index: usize) -> (r: VfsResult<DynSource>) {
        open_window(&self.parent, &self.volumes, "gpt volume index", index)
    }
}

/// Recognizes the GUID partition table by the signature of its header.
pub struct GptProbe;

impl VolumeSystemProbe for GptProbe {
    open spec fn may_scheme(&self, s: VolumeScheme) -> bool {
        s == VolumeScheme::Gpt
    }

    open spec fn may_probe(&self, w: WindowModel, c: Confidence) -> bool {
        decides(c, w.has_magic(512, gpt_signature()), "GPT EFI PART header"@)
    }

    open spec fn may_open(&self, src: DynSource, r: VfsResult<Box<dyn VolumeSystem>>) -> bool {
        exists|parsed: VfsResult<Gpt>| #[trigger]
            gpt_parses(src, parsed) && match parsed {
                Err(e) => r == Err::<Box<dyn VolumeSystem>, VfsError>(e),
                Ok(g) => stands_for(r, g),
            }
    }

    fn scheme(&self) -> (s: VolumeScheme) {
        VolumeScheme::Gpt
    }

    fn probe(&self, w: &SniffWindow) -> (c: Confidence) {
        proof {
            reveal_strlit("EFI PART");
        }
        if w.has_magic(512, literal("EFI PART")) {
            Confidence::Yes { how: "GPT EFI PART header" }
        } else {
            Confidence::No
        }
    }

    fn open(&self, src: DynSource) -> (r: VfsResult<Box<dyn VolumeSystem>>) {
        let parsed = Gpt::parse(src);
        let ghost answer = parsed;
        assert(gpt_parses(src, answer));
        match parsed {
            Err(e) => Err(e),
            Ok(g) => {
                let ghost held = g;
                let r: VfsResult<Box<dyn VolumeSystem>> = Ok(Box::new(g));
                assert(stands_for(r, held));
                r
            },
        }
    }
}

} // verus!

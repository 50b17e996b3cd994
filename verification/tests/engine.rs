//! The partition tables and the engine, over synthetic disks.

use forensic_vfs::engine::{is_ewf, ntfs_mount_error, ntfs_probe};
use forensic_vfs::partition::{Gpt, GptProbe, Mbr, MbrProbe};
use forensic_vfs::{
    default_registry, Confidence, DirStream, DynFs, DynSource, ExtentStream, FileId, FileSystem,
    FileSystemProbe, FsKind, FsMeta, ImageSource, Layer, NodeStream, SectorSizes, SniffWindow,
    StreamId, TimeZonePolicy, Vfs, VfsError, VfsResult, VolumeKind, VolumeScheme, VolumeSystem,
    VolumeSystemProbe,
};

struct MemSource(Vec<u8>);

impl ImageSource for MemSource {
    fn len(&self) -> u64 {
        self.0.len() as u64
    }
    fn read_at(&self, offset: u64, buf: &mut [u8]) -> VfsResult<usize> {
        let off = usize::try_from(offset).unwrap_or(usize::MAX);
        let Some(src) = self.0.get(off..) else {
            return Ok(0);
        };
        let n = src.len().min(buf.len());
        buf[..n].copy_from_slice(&src[..n]);
        Ok(n)
    }
}

fn mem(bytes: Vec<u8>) -> DynSource {
    DynSource::new(Box::new(MemSource(bytes)))
}

/// A source that cannot be read.
struct Unreadable;

impl ImageSource for Unreadable {
    fn len(&self) -> u64 {
        4096
    }
    fn read_at(&self, _offset: u64, _buf: &mut [u8]) -> VfsResult<usize> {
        Err(VfsError::Bootstrap {
            stage: "disk",
            detail: "gone".to_string(),
        })
    }
}

// --- MBR -------------------------------------------------------------------

/// Set entry `i` of the table in the boot sector.
fn set_mbr(disk: &mut [u8], i: usize, ptype: u8, start: u32, size: u32) {
    let base = 446 + i * 16;
    disk[base + 4] = ptype;
    disk[base + 8..base + 12].copy_from_slice(&start.to_le_bytes());
    disk[base + 12..base + 16].copy_from_slice(&size.to_le_bytes());
    disk[510] = 0x55;
    disk[511] = 0xaa;
}

#[test]
fn the_boot_sector_table_lists_the_entries_in_use() {
    let mut disk = vec![0u8; 8192];
    set_mbr(&mut disk, 0, 0x07, 2, 4);
    set_mbr(&mut disk, 1, 0xee, 1, 9); // stands for a GUID table
    set_mbr(&mut disk, 2, 0x83, 8, 0); // without a size
    set_mbr(&mut disk, 3, 0x0b, 6, 100); // longer than the disk
    let mbr = Mbr::parse(mem(disk)).unwrap();
    assert_eq!(mbr.scheme(), VolumeScheme::Mbr);
    let v = mbr.volumes();
    assert_eq!(v.len(), 2);
    assert_eq!(v[0].index, 0);
    assert_eq!(v[0].kind, VolumeKind::Partition);
    assert_eq!((v[0].start, v[0].len), (1024, 2048));
    assert_eq!(v[0].type_hint.as_deref(), Some("0x07"));
    assert_eq!(v[0].label, None);
    assert_eq!(v[1].index, 3);
    assert_eq!((v[1].start, v[1].len), (3072, 51200));
    assert_eq!(v[1].type_hint.as_deref(), Some("0x0b"));
    // The second volume is clamped to the disk.
    assert_eq!(mbr.open_volume(0).unwrap().len(), 2048);
    assert_eq!(mbr.open_volume(1).unwrap().len(), 8192 - 3072);
}

#[test]
fn a_volume_that_the_boot_sector_does_not_have_is_out_of_range() {
    let mut disk = vec![0u8; 4096];
    set_mbr(&mut disk, 0, 0x07, 1, 1);
    let mbr = Mbr::parse(mem(disk)).unwrap();
    match mbr.open_volume(1) {
        Err(VfsError::OutOfRange {
            what,
            offset,
            len,
            bound,
        }) => {
            assert_eq!(what, "mbr volume index");
            assert_eq!((offset, len, bound), (1, 1, 1));
        }
        _ => panic!("there is one volume"),
    }
}

#[test]
fn an_unreadable_boot_sector_is_an_error() {
    let src = DynSource::new(Box::new(Unreadable));
    assert!(matches!(
        Mbr::parse(src.clone()),
        Err(VfsError::Bootstrap { stage: "disk", .. })
    ));
    assert!(matches!(
        Gpt::parse(src),
        Err(VfsError::Bootstrap { stage: "disk", .. })
    ));
}

#[test]
fn the_boot_sector_is_recognized_by_its_signature_and_an_entry() {
    let mut disk = vec![0u8; 512];
    assert!(!MbrProbe.probe(&SniffWindow::new(0, &disk)).is_candidate());
    set_mbr(&mut disk, 2, 0x83, 1, 1);
    assert_eq!(
        MbrProbe.probe(&SniffWindow::new(0, &disk)),
        Confidence::Yes {
            how: "MBR partition table"
        }
    );
    // A short window never matches.
    assert_eq!(
        MbrProbe.probe(&SniffWindow::new(0, &disk[..511])),
        Confidence::No
    );
    // Without the signature the entry counts for nothing.
    disk[511] = 0;
    assert_eq!(MbrProbe.probe(&SniffWindow::new(0, &disk)), Confidence::No);
}

#[test]
fn a_protective_boot_sector_is_left_alone() {
    let mut disk = vec![0u8; 512];
    set_mbr(&mut disk, 0, 0xee, 1, 100);
    assert_eq!(MbrProbe.probe(&SniffWindow::new(0, &disk)), Confidence::No);
}

// --- GPT -------------------------------------------------------------------

/// A disk with a GUID table whose entry array begins in sector 2.
fn gpt_disk(sectors: usize, entries: u32, entry_size: u32) -> Vec<u8> {
    let mut disk = vec![0u8; sectors * 512];
    disk[512..520].copy_from_slice(b"EFI PART");
    disk[512 + 72..512 + 80].copy_from_slice(&2u64.to_le_bytes());
    disk[512 + 80..512 + 84].copy_from_slice(&entries.to_le_bytes());
    disk[512 + 84..512 + 88].copy_from_slice(&entry_size.to_le_bytes());
    disk
}

fn set_gpt(disk: &mut [u8], at: usize, guid: u8, first: u64, last: u64) {
    let base = 1024 + at;
    for b in &mut disk[base..base + 16] {
        *b = guid;
    }
    disk[base + 32..base + 40].copy_from_slice(&first.to_le_bytes());
    disk[base + 40..base + 48].copy_from_slice(&last.to_le_bytes());
}

#[test]
fn the_guid_table_lists_the_entries_in_use() {
    let mut disk = gpt_disk(64, 4, 128);
    set_gpt(&mut disk, 0, 0xa2, 34, 35);
    set_gpt(&mut disk, 128, 0, 36, 37); // without a type
    set_gpt(&mut disk, 256, 0xeb, 40, 39); // ends before it begins
    set_gpt(&mut disk, 384, 0x0f, 50, 1000); // ends after the disk
    let gpt = Gpt::parse(mem(disk)).unwrap();
    assert_eq!(gpt.scheme(), VolumeScheme::Gpt);
    let v = gpt.volumes();
    assert_eq!(v.len(), 2);
    assert_eq!(v[0].index, 0);
    assert_eq!((v[0].start, v[0].len), (34 * 512, 2 * 512));
    assert_eq!(
        v[0].type_hint.as_deref(),
        Some("a2a2a2a2a2a2a2a2a2a2a2a2a2a2a2a2")
    );
    assert_eq!(v[1].index, 3);
    assert_eq!((v[1].start, v[1].len), (50 * 512, 951 * 512));
    assert_eq!(gpt.open_volume(0).unwrap().len(), 1024);
    assert_eq!(gpt.open_volume(1).unwrap().len(), 14 * 512);
    assert!(matches!(
        gpt.open_volume(2),
        Err(VfsError::OutOfRange {
            what: "gpt volume index",
            offset: 2,
            len: 1,
            bound: 2
        })
    ));
}

#[test]
fn a_hostile_guid_table_is_capped() {
    // A count and an entry length beyond the caps: 256 entries of 512 bytes are read.
    let mut disk = gpt_disk(2 + 257, u32::MAX, u32::MAX);
    set_gpt(&mut disk, 255 * 512, 1, 3, 3);
    set_gpt(&mut disk, 256 * 512, 1, 4, 4);
    let gpt = Gpt::parse(mem(disk)).unwrap();
    assert_eq!(gpt.volumes().len(), 1);
    assert_eq!(gpt.volumes()[0].index, 255);
    // An entry length below 128 is raised to it.
    let mut small = gpt_disk(64, 2, 1);
    set_gpt(&mut small, 128, 7, 10, 10);
    let gpt = Gpt::parse(mem(small)).unwrap();
    assert_eq!(gpt.volumes().len(), 1);
    assert_eq!(gpt.volumes()[0].index, 1);
    // A range of every sector is capped, not wrapped.
    let mut huge = gpt_disk(64, 1, 128);
    set_gpt(&mut huge, 0, 7, 0, u64::MAX);
    let gpt = Gpt::parse(mem(huge)).unwrap();
    assert_eq!((gpt.volumes()[0].start, gpt.volumes()[0].len), (0, u64::MAX));
}

#[test]
fn a_header_without_the_signature_is_an_error() {
    let mut disk = vec![0u8; 4096];
    disk[512..516].copy_from_slice(b"EFI ");
    match Gpt::parse(mem(disk)) {
        Err(VfsError::Decode {
            layer,
            offset,
            detail,
            bytes,
        }) => {
            assert_eq!(layer, "gpt");
            assert_eq!(offset, 512);
            assert_eq!(detail, "missing EFI PART signature");
            assert_eq!(bytes.as_bytes(), b"EFI \0\0\0\0");
        }
        _ => panic!("the signature is cut short"),
    }
}

#[test]
fn the_guid_table_is_recognized_by_its_header() {
    let disk = gpt_disk(4, 1, 128);
    assert_eq!(
        GptProbe.probe(&SniffWindow::new(0, &disk)),
        Confidence::Yes {
            how: "GPT EFI PART header"
        }
    );
    assert_eq!(
        GptProbe.probe(&SniffWindow::new(0, &disk[..519])),
        Confidence::No
    );
}

// --- engine ----------------------------------------------------------------

/// A filesystem that only answers what it is.
struct Stub;

impl FileSystem for Stub {
    fn kind(&self) -> FsKind {
        FsKind::Ntfs
    }
    fn root(&self) -> FileId {
        FileId::NtfsRef { entry: 5, seq: 5 }
    }
    fn sector_sizes(&self) -> SectorSizes {
        SectorSizes {
            logical: 512,
            physical: 512,
            cluster_or_block: 4096,
        }
    }
    fn timestamp_zone(&self) -> TimeZonePolicy {
        TimeZonePolicy::Utc
    }
    fn read_dir(&self, _ino: FileId) -> VfsResult<DirStream> {
        Ok(DirStream::empty())
    }
    fn extents(&self, _ino: FileId, _stream: StreamId) -> VfsResult<ExtentStream> {
        Ok(ExtentStream::empty())
    }
    fn lookup(&self, _parent: FileId, _name: &[u8]) -> VfsResult<Option<FileId>> {
        Ok(None)
    }
    fn meta(&self, _ino: FileId) -> VfsResult<FsMeta> {
        Err(ntfs_mount_error("no metadata".to_string()))
    }
    fn read_at(&self, _i: FileId, _s: StreamId, _o: u64, _b: &mut [u8]) -> VfsResult<usize> {
        Ok(0)
    }
    fn read_link(&self, _ino: FileId, _cap: usize) -> VfsResult<Vec<u8>> {
        Ok(Vec::new())
    }
    fn deleted(&self) -> VfsResult<NodeStream> {
        Ok(NodeStream::empty())
    }
    fn unallocated(&self) -> VfsResult<ExtentStream> {
        Ok(ExtentStream::empty())
    }
}

/// A prober that recognizes NTFS as the engine does, and mounts the stub.
struct StubProbe {
    broken: bool,
}

impl FileSystemProbe for StubProbe {
    fn kind(&self) -> FsKind {
        FsKind::Ntfs
    }
    fn probe(&self, w: &SniffWindow) -> Confidence {
        ntfs_probe(w)
    }
    fn open(&self, _src: DynSource) -> VfsResult<DynFs> {
        if self.broken {
            return Err(ntfs_mount_error("no $MFT".to_string()));
        }
        Ok(DynFs::new(Box::new(Stub)))
    }
}

fn vfs() -> Vfs {
    Vfs::new(vec![Box::new(StubProbe { broken: false })])
}

#[test]
fn the_default_registry_holds_the_readers_in_order() {
    let reg = default_registry(vec![Box::new(StubProbe { broken: false })]);
    assert_eq!(reg.filesystems().len(), 1);
    assert_eq!(reg.volume_systems().len(), 2);
    assert_eq!(reg.volume_systems()[0].scheme(), VolumeScheme::Gpt);
    assert_eq!(reg.volume_systems()[1].scheme(), VolumeScheme::Mbr);
    assert!(reg.containers().is_empty());
    assert!(reg.encryption_layers().is_empty());
    assert!(reg.archives().is_empty());
}

#[test]
fn a_bare_volume_is_mounted() {
    let mut disk = vec![0u8; 4096];
    disk[3..11].copy_from_slice(b"NTFS    ");
    let ev = vfs().open(b"/case/vol.raw".to_vec(), mem(disk)).unwrap();
    assert!(matches!(&ev.root.layer, Layer::Os { path } if path == b"/case/vol.raw"));
    assert_eq!(ev.fs.unwrap().kind(), FsKind::Ntfs);
}

#[test]
fn a_volume_of_a_partitioned_disk_is_mounted() {
    // The first partition holds nothing; the second is an NTFS volume.
    let mut disk = vec![0u8; 64 * 512];
    set_mbr(&mut disk, 0, 0x83, 8, 8);
    set_mbr(&mut disk, 1, 0x07, 16, 16);
    disk[16 * 512 + 3..16 * 512 + 11].copy_from_slice(b"NTFS    ");
    let ev = vfs().open(b"/case/disk.raw".to_vec(), mem(disk)).unwrap();
    assert!(ev.fs.is_some());

    let mut disk = gpt_disk(64, 2, 128);
    set_gpt(&mut disk, 128, 0xa2, 40, 50);
    disk[40 * 512 + 3..40 * 512 + 11].copy_from_slice(b"NTFS    ");
    let ev = vfs().open(b"/case/disk.raw".to_vec(), mem(disk)).unwrap();
    assert!(ev.fs.is_some());
}

#[test]
fn an_unknown_source_is_evidence_without_a_filesystem() {
    let ev = vfs().open(b"/x".to_vec(), mem(vec![0u8; 4096])).unwrap();
    assert!(ev.fs.is_none());
    let ev = vfs().open(b"/x".to_vec(), mem(Vec::new())).unwrap();
    assert!(ev.fs.is_none());
}

#[test]
fn a_table_that_contains_itself_ends_at_the_depth_cap() {
    // The only partition is the whole disk.
    let mut disk = vec![0u8; 4096];
    set_mbr(&mut disk, 0, 0x83, 0, 8);
    let ev = vfs().open(b"/x".to_vec(), mem(disk)).unwrap();
    assert!(ev.fs.is_none());
}

#[test]
fn a_recognized_volume_that_does_not_mount_is_an_error() {
    let broken = Vfs::new(vec![Box::new(StubProbe { broken: true })]);
    let mut disk = vec![0u8; 4096];
    disk[3..11].copy_from_slice(b"NTFS    ");
    match broken.open(b"/x".to_vec(), mem(disk)) {
        Err(VfsError::Decode {
            layer,
            offset,
            detail,
            bytes,
        }) => {
            assert_eq!(layer, "ntfs");
            assert_eq!(offset, 0);
            assert_eq!(detail, "no $MFT");
            assert!(bytes.is_empty());
        }
        _ => panic!("the mount fails"),
    }
    let gone = DynSource::new(Box::new(Unreadable));
    assert!(vfs().open(b"/x".to_vec(), gone).is_err());
}

#[test]
fn ntfs_is_recognized_by_its_oem_id() {
    let mut head = vec![0u8; 16];
    assert_eq!(ntfs_probe(&SniffWindow::new(0, &head)), Confidence::No);
    head[3..11].copy_from_slice(b"NTFS    ");
    assert_eq!(
        ntfs_probe(&SniffWindow::new(0, &head)),
        Confidence::Yes { how: "NTFS OEM id" }
    );
    assert_eq!(ntfs_probe(&SniffWindow::new(0, &head[..10])), Confidence::No);
}

#[test]
fn ewf_is_recognized_by_the_extension_in_any_case() {
    for yes in ["e01", "E01", "ex01", "Ex01", "EX01"] {
        assert!(is_ewf(Some(yes.as_bytes())), "{yes}");
    }
    for no in ["", "e02", "e1", "e011", "raw", "01"] {
        assert!(!is_ewf(Some(no.as_bytes())), "{no}");
    }
    assert!(!is_ewf(None));
}

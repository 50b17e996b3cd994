//! The contracts as a downstream reader sees them: a double for each trait, driven
//! through its shared handle.

use std::sync::Arc;

use forensic_vfs::error::{ambiguous_text, io_text};
use forensic_vfs::{
    read_exact_at, read_exact_from, Allocation, Confidence, Credential, CredentialSource, DeletedNode,
    DeletedStream, DirEntry, DirStream, DynCredentials, DynFs, DynSource, EncryptionLayer,
    EncryptionScheme, Extent, ExtentStream, Extents, FileId, FileSystem, FsKind, FsMeta,
    ImageSource, Layer, Listed, MacbTimes, NoCredentials, NodeKind, NodeStream, PathSpec,
    Registry, ResidencyKind, SectorSizes, SmallHex, SniffWindow, SourceId, SourceView, StreamId,
    TimeZonePolicy, VfsError, VfsResult, VolumeDesc, VolumeKind, VolumeScheme, VolumeSystem,
};

// --- doubles -------------------------------------------------------------

struct MemSource(Vec<u8>);
impl ImageSource for MemSource {
    fn len(&self) -> u64 {
        self.0.len() as u64
    }
    fn read_at(&self, offset: u64, buf: &mut [u8]) -> VfsResult<usize> {
        let off = usize::try_from(offset).unwrap_or(usize::MAX);
        let Some(src) = self.0.get(off..) else {
            return Ok(0);
        };
        let n = src.len().min(buf.len());
        buf[..n].copy_from_slice(&src[..n]);
        Ok(n)
    }
}

struct MemFs;
impl FileSystem for MemFs {
    fn kind(&self) -> FsKind {
        FsKind::Ntfs
    }
    fn root(&self) -> FileId {
        FileId::NtfsRef { entry: 5, seq: 1 }
    }
    fn sector_sizes(&self) -> SectorSizes {
        SectorSizes {
            logical: 512,
            physical: 4096,
            cluster_or_block: 4096,
        }
    }
    fn timestamp_zone(&self) -> TimeZonePolicy {
        TimeZonePolicy::Utc
    }
    fn read_dir(&self, _ino: FileId) -> VfsResult<DirStream> {
        Ok(DirStream::new(Box::new(Listed::new(vec![Ok(DirEntry {
            name: b"file".to_vec(),
            id: FileId::Opaque(9),
            kind: NodeKind::File,
        })]))))
    }
    fn extents(&self, _ino: FileId, _stream: StreamId) -> VfsResult<ExtentStream> {
        Ok(ExtentStream::empty())
    }
    fn lookup(&self, _parent: FileId, name: &[u8]) -> VfsResult<Option<FileId>> {
        Ok(if name == b"file" {
            Some(FileId::Opaque(9))
        } else {
            None
        })
    }
    fn meta(&self, ino: FileId) -> VfsResult<FsMeta> {
        Ok(FsMeta {
            ino: match ino {
                FileId::Opaque(n) => n,
                _ => 0,
            },
            kind: NodeKind::File,
            allocated: Allocation::Allocated,
            size: 4,
            nlink: 1,
            uid: Some(0),
            gid: Some(0),
            mode: Some(0o644),
            times: MacbTimes::default(),
            streams: Vec::new(),
            residency: ResidencyKind::Resident { inline_len: 4 },
            link_target: None,
        })
    }
    fn read_at(
        &self,
        _ino: FileId,
        _stream: StreamId,
        _off: u64,
        buf: &mut [u8],
    ) -> VfsResult<usize> {
        let data = b"data";
        let n = data.len().min(buf.len());
        buf[..n].copy_from_slice(&data[..n]);
        Ok(n)
    }
    fn read_link(&self, _ino: FileId, _cap: usize) -> VfsResult<Vec<u8>> {
        Ok(Vec::new())
    }
    fn deleted(&self) -> VfsResult<NodeStream> {
        Ok(NodeStream::empty())
    }
    fn unallocated(&self) -> VfsResult<ExtentStream> {
        Ok(ExtentStream::empty())
    }
}

struct OneVolume(Vec<VolumeDesc>, DynSource);
impl VolumeSystem for OneVolume {
    fn scheme(&self) -> VolumeScheme {
        VolumeScheme::Gpt
    }
    fn volumes(&self) -> &[VolumeDesc] {
        &self.0
    }
    fn open_volume(&self, index: usize) -> VfsResult<DynSource> {
        if index == 0 {
            Ok(self.1.clone())
        } else {
            Err(VfsError::OutOfRange {
                what: "volume",
                offset: index as u64,
                len: 1,
                bound: self.0.len() as u64,
            })
        }
    }
}

struct Vault(DynSource);
impl EncryptionLayer for Vault {
    fn scheme(&self) -> EncryptionScheme {
        EncryptionScheme::Bitlocker
    }
    fn open(&self, creds: &DynCredentials) -> VfsResult<DynSource> {
        if creds
            .inner
            .credentials_for(EncryptionScheme::Bitlocker, "OS")
            .is_empty()
        {
            return Err(VfsError::NeedCredentials {
                scheme: "bitlocker",
                target: "OS".to_string(),
            });
        }
        Ok(self.0.clone())
    }
}

struct Keyring(bool);
impl CredentialSource for Keyring {
    fn credentials_for(&self, _scheme: EncryptionScheme, _target: &str) -> Vec<Credential> {
        if self.0 {
            vec![Credential::Password("hunter2".to_string())]
        } else {
            Vec::new()
        }
    }
}

// --- tests ---------------------------------------------------------------

#[test]
fn image_source_composes_as_dyn_and_has_working_defaults() {
    let src: DynSource = DynSource::new(Box::new(MemSource(vec![1, 2, 3, 4])));
    assert_eq!(src.len(), 4);
    assert!(!src.is_empty());
    assert_eq!(src.source_id(), SourceId::root());
    assert!(src.view(0, 4).is_none()); // default: no zero-copy view
                                       // default extents() is one dense run covering the whole stream
    let ext = src.extents();
    assert_eq!(ext.runs(), &[Extent { offset: 0, len: 4 }]);

    let mut buf = [0u8; 4];
    read_exact_at(&**src, 0, &mut buf).unwrap();
    assert_eq!(buf, [1, 2, 3, 4]);
    // read_exact past the end fails loud (never a partial-fill lie).
    let mut too_much = [0u8; 8];
    assert!(matches!(
        read_exact_at(&**src, 0, &mut too_much),
        Err(VfsError::OutOfRange { .. })
    ));
}

#[test]
fn filesystem_composes_as_dyn_and_drives_every_op() {
    let fs: DynFs = DynFs::new(Box::new(MemFs));
    assert_eq!(fs.kind(), FsKind::Ntfs);
    assert!(matches!(fs.root(), FileId::NtfsRef { entry: 5, seq: 1 }));
    assert_eq!(fs.sector_sizes().logical, 512);
    assert!(matches!(fs.timestamp_zone(), TimeZonePolicy::Utc));

    let id = fs.lookup(fs.root(), b"file").unwrap().unwrap();
    assert!(fs.lookup(fs.root(), b"nope").unwrap().is_none());
    let meta = fs.meta(id).unwrap();
    assert_eq!(meta.size, 4);

    let mut stream = fs.read_dir(fs.root()).unwrap();
    let mut names = Vec::new();
    while let Some(e) = stream.next() {
        names.push(e.unwrap().name);
    }
    assert_eq!(names, vec![b"file".to_vec()]);

    let mut buf = [0u8; 4];
    assert_eq!(fs.read_at(id, StreamId::Default, 0, &mut buf).unwrap(), 4);
    assert_eq!(&buf, b"data");

    // default forensic surface
    assert!(fs.data_streams(id).unwrap().is_empty());
    assert!(fs.hardlinks(id).unwrap().is_empty());
    assert!(fs.slack(id, StreamId::Default).unwrap().is_none());
    assert!(fs.read_link(id, 64).unwrap().is_empty());
    assert!(fs.extents(id, StreamId::Default).unwrap().next().is_none());
    assert!(fs.deleted().unwrap().next().is_none());
    assert!(fs.unallocated().unwrap().next().is_none());
}

#[test]
fn volume_system_opens_a_volume_and_rejects_out_of_range() {
    let base: DynSource = DynSource::new(Box::new(MemSource(vec![0xaa; 16])));
    let vs = OneVolume(
        vec![VolumeDesc {
            index: 0,
            kind: VolumeKind::Partition,
            start: 0,
            len: 16,
            type_hint: Some("EFI".to_string()),
            label: None,
        }],
        base,
    );
    let boxed: Box<dyn VolumeSystem> = Box::new(vs);
    assert_eq!(boxed.scheme(), VolumeScheme::Gpt);
    assert_eq!(boxed.volumes().len(), 1);
    assert_eq!(boxed.open_volume(0).unwrap().len(), 16);
    assert!(boxed.open_volume(1).is_err());
}

#[test]
fn encryption_layer_needs_credentials_then_opens() {
    let plain: DynSource = DynSource::new(Box::new(MemSource(vec![1, 2, 3])));
    let vault: Box<dyn EncryptionLayer> = Box::new(Vault(plain));
    assert_eq!(vault.scheme(), EncryptionScheme::Bitlocker);
    // No keys -> loud NeedCredentials, never a silent empty.
    assert!(matches!(
        vault.open(&DynCredentials::new(Box::new(Keyring(false)))),
        Err(VfsError::NeedCredentials { .. })
    ));
    // With keys -> decrypted source.
    assert_eq!(vault.open(&DynCredentials::new(Box::new(Keyring(true)))).unwrap().len(), 3);
}

#[test]
fn registry_collects_probers() {
    // An empty default registry; a real one is filled by the engine.
    let reg = Registry::new();
    assert!(reg.containers().is_empty());
    assert!(reg.volume_systems().is_empty());
    assert!(reg.encryption_layers().is_empty());
    assert!(reg.filesystems().is_empty());
}

#[test]
fn confidence_and_sniff_window() {
    assert!(Confidence::Yes { how: "magic" }.is_yes());
    assert!(Confidence::Yes { how: "magic" }.is_candidate());
    assert!(Confidence::Maybe.is_candidate());
    assert!(!Confidence::No.is_candidate());
    assert!(!Confidence::No.is_yes());

    let w = SniffWindow::new(512, &[0x4e, 0x54, 0x46, 0x53]); // "NTFS"
    assert_eq!(w.base(), 512);
    assert_eq!(w.bytes().len(), 4);
    assert!(w.has_magic(0, b"NTFS"));
    assert!(!w.has_magic(1, b"NTFS")); // out of range -> false, no panic
    assert_eq!(w.at(0, 2), Some(&[0x4e, 0x54][..]));
    assert_eq!(w.at(3, 5), None);
    assert_eq!(w.at(usize::MAX, 1), None); // overflow -> None
}

#[test]
fn sniff_window_tail_and_total_len() {
    // new(): total_len = base + bytes.len(); the tail is empty, so any
    // from-end probe declines without panic.
    let head = SniffWindow::new(0, &[1, 2, 3, 4]);
    assert_eq!(head.total_len(), 4);
    assert!(!head.has_magic_from_end(1, &[4]));
    assert_eq!(head.tail_at(1, 1), None);

    // with_tail(): a koly-like trailer sitting at file_len - tail.len(), with a
    // total_len far larger than the head window (the DMG footer case).
    let tail = [b'k', b'o', b'l', b'y', 0, 0];
    let w = SniffWindow::with_tail(0, &[0u8; 8], 1_000_000, &tail);
    assert_eq!(w.total_len(), 1_000_000);
    // "koly" starts at tail[tail.len() - 6] == tail[0].
    assert!(w.has_magic_from_end(6, b"koly"));
    assert!(!w.has_magic_from_end(6, b"KOLY"));
    assert_eq!(w.tail_at(6, 4), Some(&b"koly"[..]));
    // from_end greater than the tail length -> false/None, never a panic.
    assert!(!w.has_magic_from_end(7, b"koly"));
    assert_eq!(w.tail_at(7, 4), None);
    // n runs past the end of the tail -> None.
    assert_eq!(w.tail_at(2, 4), None);
}

#[test]
fn extents_dense_and_allocated_len() {
    assert!(Extents::dense(0).is_empty());
    let e = Extents::dense(100);
    assert_eq!(e.runs().len(), 1);
    assert_eq!(e.allocated_len(), 100);
    let sparse = Extents::from_runs(vec![
        Extent { offset: 0, len: 10 },
        Extent { offset: 50, len: 5 },
    ]);
    assert_eq!(sparse.allocated_len(), 15);
    assert!(!sparse.is_empty());
    // saturating on absurd runs
    let big = Extents::from_runs(vec![
        Extent {
            offset: 0,
            len: u64::MAX,
        },
        Extent {
            offset: 0,
            len: u64::MAX,
        },
    ]);
    assert_eq!(big.allocated_len(), u64::MAX);
}

#[test]
fn source_view_derefs_both_variants() {
    let mmap_backing = [9u8, 8, 7];
    let v = SourceView::Mmap(&mmap_backing);
    assert_eq!(&*v, &[9, 8, 7]);
    let arc: Arc<[u8]> = Arc::from([1u8, 2, 3, 4].as_slice());
    let block = SourceView::Block(arc.clone(), 1..3);
    assert_eq!(&*block, &[2, 3]);
    // An out-of-range block range degrades to empty, never panics.
    let bad = SourceView::Block(arc, 10..20);
    assert_eq!(&*bad, &[] as &[u8]);
}

#[test]
fn pathspec_navigation() {
    let spec = PathSpec::os(b"/img.raw".to_vec())
        .push(Layer::Range { start: 0, len: 512 })
        .push(Layer::Stream {
            id: StreamId::Default,
        });
    assert_eq!(spec.depth(), 3);
    assert!(matches!(spec.base().layer, Layer::Os { .. }));
    assert_eq!(spec.layers().len(), 3);
    // a raw root spec (not OS-rooted)
    let r = PathSpec::root(Layer::Range { start: 8, len: 8 });
    assert_eq!(r.depth(), 1);
}

#[test]
fn smallhex_captures_truncates_and_formats() {
    let h = SmallHex::new(&[0xde, 0xad, 0xbe, 0xef]);
    assert_eq!(h.as_bytes(), &[0xde, 0xad, 0xbe, 0xef]);
    assert!(!h.is_empty());
    assert_eq!(h.to_string(), "de ad be ef");
    assert_eq!(h.debug_string(), "SmallHex(deadbeef)");
    // longer than CAP is truncated to the identifying prefix
    let long = vec![0x41u8; 32];
    assert_eq!(SmallHex::new(&long).as_bytes().len(), SmallHex::CAP);
    assert!(SmallHex::new(&[]).is_empty());
}

#[test]
fn every_error_variant_renders() {
    let bytes = SmallHex::new(&[0x00, 0xff]);
    let errs = [
        VfsError::Io {
            op: "read",
            source: std::io::Error::other("x"),
        },
        VfsError::Decode {
            layer: "gpt",
            offset: 1,
            detail: "bad".to_string(),
            bytes,
        },
        VfsError::Unrecognized {
            at: "container",
            offset: 0,
            bytes,
        },
        VfsError::Ambiguous {
            candidates: vec!["ntfs", "fat"],
        },
        VfsError::Bootstrap {
            stage: "mount",
            detail: "no super".to_string(),
        },
        VfsError::Unsupported {
            layer: "encryption",
            scheme: "veracrypt".to_string(),
        },
        VfsError::Budget {
            cap: "depth",
            limit: 16,
        },
        VfsError::NeedCredentials {
            scheme: "luks2",
            target: "root".to_string(),
        },
        VfsError::OutOfRange {
            what: "read",
            offset: 9,
            len: 4,
            bound: 8,
        },
    ];
    for e in errs {
        assert!(!e.to_string().is_empty());
    }
}

// --- volume label ----------------------------------------------------------
/// Does NOT override `volume_label`: exercises the default.
struct Unlabeled;
impl FileSystem for Unlabeled {
    fn kind(&self) -> FsKind {
        FsKind::Ntfs
    }
    fn root(&self) -> FileId {
        FileId::Opaque(0)
    }
    fn sector_sizes(&self) -> SectorSizes {
        SectorSizes {
            logical: 512,
            physical: 512,
            cluster_or_block: 512,
        }
    }
    fn timestamp_zone(&self) -> TimeZonePolicy {
        TimeZonePolicy::Utc
    }
    fn read_dir(&self, _i: FileId) -> VfsResult<DirStream> {
        Ok(DirStream::empty())
    }
    fn extents(&self, _i: FileId, _s: StreamId) -> VfsResult<ExtentStream> {
        Ok(ExtentStream::empty())
    }
    fn lookup(&self, _p: FileId, _n: &[u8]) -> VfsResult<Option<FileId>> {
        Ok(None)
    }
    fn meta(&self, _i: FileId) -> VfsResult<FsMeta> {
        Ok(FsMeta {
            ino: 0,
            kind: NodeKind::Dir,
            allocated: Allocation::Allocated,
            size: 0,
            nlink: 1,
            uid: None,
            gid: None,
            mode: None,
            times: MacbTimes::default(),
            streams: Vec::new(),
            residency: ResidencyKind::NonResident,
            link_target: None,
        })
    }
    fn read_at(&self, _i: FileId, _s: StreamId, _o: u64, _b: &mut [u8]) -> VfsResult<usize> {
        Ok(0)
    }
    fn read_link(&self, _i: FileId, _c: usize) -> VfsResult<Vec<u8>> {
        Ok(Vec::new())
    }
    fn deleted(&self) -> VfsResult<NodeStream> {
        Ok(NodeStream::empty())
    }
    fn unallocated(&self) -> VfsResult<ExtentStream> {
        Ok(ExtentStream::empty())
    }
}

/// Overrides `volume_label`: exercises the reader-provided path.
struct Labeled;
impl FileSystem for Labeled {
    fn kind(&self) -> FsKind {
        FsKind::Ntfs
    }
    fn root(&self) -> FileId {
        FileId::Opaque(0)
    }
    fn sector_sizes(&self) -> SectorSizes {
        SectorSizes {
            logical: 512,
            physical: 512,
            cluster_or_block: 512,
        }
    }
    fn timestamp_zone(&self) -> TimeZonePolicy {
        TimeZonePolicy::Utc
    }
    fn read_dir(&self, _i: FileId) -> VfsResult<DirStream> {
        Ok(DirStream::empty())
    }
    fn extents(&self, _i: FileId, _s: StreamId) -> VfsResult<ExtentStream> {
        Ok(ExtentStream::empty())
    }
    fn lookup(&self, _p: FileId, _n: &[u8]) -> VfsResult<Option<FileId>> {
        Ok(None)
    }
    fn meta(&self, _i: FileId) -> VfsResult<FsMeta> {
        Ok(FsMeta {
            ino: 0,
            kind: NodeKind::Dir,
            allocated: Allocation::Allocated,
            size: 0,
            nlink: 1,
            uid: None,
            gid: None,
            mode: None,
            times: MacbTimes::default(),
            streams: Vec::new(),
            residency: ResidencyKind::NonResident,
            link_target: None,
        })
    }
    fn read_at(&self, _i: FileId, _s: StreamId, _o: u64, _b: &mut [u8]) -> VfsResult<usize> {
        Ok(0)
    }
    fn read_link(&self, _i: FileId, _c: usize) -> VfsResult<Vec<u8>> {
        Ok(Vec::new())
    }
    fn deleted(&self) -> VfsResult<NodeStream> {
        Ok(NodeStream::empty())
    }
    fn unallocated(&self) -> VfsResult<ExtentStream> {
        Ok(ExtentStream::empty())
    }
    fn volume_label(&self) -> Option<String> {
        Some("System Reserved".to_string())
    }
}

#[test]
fn default_volume_label_is_none() {
    let fs: DynFs = DynFs::new(Box::new(Unlabeled));
    assert_eq!(fs.volume_label(), None);
}

#[test]
fn overridden_volume_label_is_returned() {
    let fs: DynFs = DynFs::new(Box::new(Labeled));
    assert_eq!(fs.volume_label().as_deref(), Some("System Reserved"));
}

// --- deleted nodes ---------------------------------------------------------

fn drain(mut stream: DeletedStream) -> Vec<DeletedNode> {
    let mut out = Vec::new();
    while let Some(node) = stream.next() {
        out.push(node.unwrap());
    }
    out
}

fn deleted_meta(ino: u64) -> FsMeta {
    FsMeta {
        ino,
        kind: NodeKind::File,
        allocated: Allocation::Deleted,
        size: 12,
        nlink: 0,
        uid: None,
        gid: None,
        mode: None,
        times: MacbTimes::default(),
        streams: Vec::new(),
        residency: ResidencyKind::Resident { inline_len: 12 },
        link_target: None,
    }
}

fn sizes() -> SectorSizes {
    SectorSizes {
        logical: 512,
        physical: 512,
        cluster_or_block: 4096,
    }
}

/// A reader that recovers one placeable deleted node (parent known) and one
/// orphan (parent unrecoverable).
struct RecoverableFs;
impl FileSystem for RecoverableFs {
    fn kind(&self) -> FsKind {
        FsKind::Ntfs
    }
    fn root(&self) -> FileId {
        FileId::NtfsRef { entry: 5, seq: 1 }
    }
    fn sector_sizes(&self) -> SectorSizes {
        sizes()
    }
    fn timestamp_zone(&self) -> TimeZonePolicy {
        TimeZonePolicy::Utc
    }
    fn read_dir(&self, _ino: FileId) -> VfsResult<DirStream> {
        Ok(DirStream::empty())
    }
    fn extents(&self, _ino: FileId, _s: StreamId) -> VfsResult<ExtentStream> {
        Ok(ExtentStream::empty())
    }
    fn lookup(&self, _p: FileId, _n: &[u8]) -> VfsResult<Option<FileId>> {
        Ok(None)
    }
    fn meta(&self, ino: FileId) -> VfsResult<FsMeta> {
        let n = match ino {
            FileId::NtfsRef { entry, .. } => entry,
            _ => 0,
        };
        Ok(deleted_meta(n))
    }
    fn read_at(&self, _i: FileId, _s: StreamId, _o: u64, _b: &mut [u8]) -> VfsResult<usize> {
        Ok(0)
    }
    fn read_link(&self, _i: FileId, _c: usize) -> VfsResult<Vec<u8>> {
        Ok(Vec::new())
    }
    fn deleted(&self) -> VfsResult<NodeStream> {
        Ok(NodeStream::empty())
    }
    fn unallocated(&self) -> VfsResult<ExtentStream> {
        Ok(ExtentStream::empty())
    }

    fn deleted_nodes(&self) -> VfsResult<DeletedStream> {
        let placed = DeletedNode {
            id: FileId::NtfsRef { entry: 42, seq: 3 },
            name: b"notes.txt".to_vec(),
            parent: Some(FileId::NtfsRef { entry: 5, seq: 1 }),
            meta: deleted_meta(42),
        };
        let orphan = DeletedNode {
            id: FileId::NtfsRef { entry: 99, seq: 2 },
            name: b"orphan.bin".to_vec(),
            parent: None,
            meta: deleted_meta(99),
        };
        Ok(DeletedStream::new(Box::new(Listed::new(vec![Ok(placed), Ok(orphan)]))))
    }
}

/// A reader that does NOT override `deleted_nodes()`: it must fall back to the
/// default empty stream, never a fabricated entry.
struct BareFs;
impl FileSystem for BareFs {
    fn kind(&self) -> FsKind {
        FsKind::Ntfs
    }
    fn root(&self) -> FileId {
        FileId::Opaque(2)
    }
    fn sector_sizes(&self) -> SectorSizes {
        sizes()
    }
    fn timestamp_zone(&self) -> TimeZonePolicy {
        TimeZonePolicy::Utc
    }
    fn read_dir(&self, _ino: FileId) -> VfsResult<DirStream> {
        Ok(DirStream::empty())
    }
    fn extents(&self, _ino: FileId, _s: StreamId) -> VfsResult<ExtentStream> {
        Ok(ExtentStream::empty())
    }
    fn lookup(&self, _p: FileId, _n: &[u8]) -> VfsResult<Option<FileId>> {
        Ok(None)
    }
    fn meta(&self, _ino: FileId) -> VfsResult<FsMeta> {
        Ok(deleted_meta(0))
    }
    fn read_at(&self, _i: FileId, _s: StreamId, _o: u64, _b: &mut [u8]) -> VfsResult<usize> {
        Ok(0)
    }
    fn read_link(&self, _i: FileId, _c: usize) -> VfsResult<Vec<u8>> {
        Ok(Vec::new())
    }
    fn deleted(&self) -> VfsResult<NodeStream> {
        Ok(NodeStream::empty())
    }
    fn unallocated(&self) -> VfsResult<ExtentStream> {
        Ok(ExtentStream::empty())
    }
}

#[test]
fn deleted_nodes_default_is_empty() {
    let fs = BareFs;
    let got = drain(fs.deleted_nodes().unwrap());
    assert!(
        got.is_empty(),
        "a reader that has not implemented rich deleted recovery must yield an empty stream, never a fabricated entry"
    );
}

#[test]
fn deleted_nodes_carry_id_name_parent() {
    let fs = RecoverableFs;
    let got = drain(fs.deleted_nodes().unwrap());
    assert_eq!(got.len(), 2);

    // A placeable deleted node: readable id, real name, known parent.
    let placed = &got[0];
    assert_eq!(placed.id, FileId::NtfsRef { entry: 42, seq: 3 });
    assert_eq!(placed.name, b"notes.txt");
    assert_eq!(placed.parent, Some(FileId::NtfsRef { entry: 5, seq: 1 }));
    assert_eq!(placed.meta.allocated, Allocation::Deleted);

    // An orphan: no recoverable parent, but still a readable id + name.
    let orphan = &got[1];
    assert_eq!(orphan.parent, None, "an orphan has no recoverable parent");
    assert_eq!(orphan.id, FileId::NtfsRef { entry: 99, seq: 2 });
    assert_eq!(orphan.name, b"orphan.bin");
}

// --- identity --------------------------------------------------------------

#[test]
fn file_id_is_the_reexported_fn_core_type() {
    // Identity coercion: only type-checks if the two paths are the same type.
    fn same(x: forensicnomicon_core::FileId) -> forensic_vfs::FileId {
        x
    }

    let core = forensicnomicon_core::FileId::NtfsRef { entry: 7, seq: 3 };
    let vfs: forensic_vfs::FileId = same(core);
    assert_eq!(vfs, forensic_vfs::FileId::NtfsRef { entry: 7, seq: 3 });
}

// --- credentials -----------------------------------------------------------

#[test]
fn no_credentials_offers_nothing() {
    // The secure default: no keys for any scheme or target, so an identified scheme
    // asks for them loudly and a guessed one simply fails to decrypt.
    let creds = NoCredentials;
    let none: Vec<Credential> = creds.credentials_for(EncryptionScheme::Bitlocker, "vol-guid");
    assert!(none.is_empty());
    assert!(creds
        .credentials_for(EncryptionScheme::VeraCrypt, "")
        .is_empty());
}

// --- exact texts -----------------------------------------------------------

#[test]
fn errors_render_exactly() {
    let bytes = SmallHex::new(&[0x00, 0xff]);
    for (e, want) in [
        (
            VfsError::Io {
                op: "read",
                source: std::io::Error::other("x"),
            },
            "I/O during read: x",
        ),
        (
            VfsError::Ambiguous {
                candidates: vec!["ntfs", "f\"at"],
            },
            "ambiguous detection: [\"ntfs\", \"f\\\"at\"]",
        ),
        (
            VfsError::OutOfRange {
                what: "read",
                offset: 9,
                len: 4,
                bound: 8,
            },
            "read: offset 9+4 past bound 8",
        ),
        (
            VfsError::NeedCredentials {
                scheme: "luks2",
                target: "root".to_string(),
            },
            "credentials required for luks2 (root)",
        ),
    ] {
        assert_eq!(e.to_string(), want);
    }
    let decode = VfsError::Decode {
        layer: "gpt",
        offset: 1,
        detail: "bad".to_string(),
        bytes,
    };
    assert!(decode.to_string().contains("00 ff"), "{}", decode.to_string());
}

#[test]
fn a_listed_stream_gives_its_items_in_order() {
    let entry = |name: &str| DirEntry {
        name: name.as_bytes().to_vec(),
        id: FileId::Opaque(1),
        kind: NodeKind::File,
    };
    let mut s = DirStream::new(Box::new(Listed::new(vec![
        Ok(entry("a")),
        Ok(entry("b")),
        Ok(entry("c")),
    ])));
    assert_eq!(s.next().unwrap().unwrap().name, b"a");
    assert_eq!(s.next().unwrap().unwrap().name, b"b");
    assert_eq!(s.next().unwrap().unwrap().name, b"c");
    assert!(s.next().is_none());
}

#[test]
fn messages_are_written_from_the_texts_of_their_causes() {
    assert_eq!(io_text("seek", "disk gone"), "I/O during seek: disk gone");
    assert_eq!(ambiguous_text(&vec![]), "ambiguous detection: []");
    assert_eq!(
        ambiguous_text(&vec!["a".to_string(), "b".to_string(), "c".to_string()]),
        "ambiguous detection: [a, b, c]"
    );
}

#[test]
fn captures_are_equal_exactly_when_their_first_bytes_are() {
    assert_eq!(SmallHex::new(&[1, 2]), SmallHex::new(&[1, 2]));
    assert_ne!(SmallHex::new(&[1, 2]), SmallHex::new(&[1, 2, 0]));
    assert_ne!(SmallHex::new(&[1, 2]), SmallHex::new(&[1, 3]));
    let mut long = vec![7u8; 17];
    let head = SmallHex::new(&long);
    long[16] = 8;
    assert_eq!(SmallHex::new(&long), head);
    long[15] = 8;
    assert_ne!(SmallHex::new(&long), head);
}

#[test]
fn an_exact_read_takes_a_source_of_any_type() {
    let src = MemSource(vec![1, 2, 3, 4]);
    let mut buf = [0u8; 2];
    read_exact_from(&src, 1, &mut buf).unwrap();
    assert_eq!(buf, [2, 3]);
    let held: &dyn ImageSource = &src;
    assert!(matches!(
        read_exact_from(held, 3, &mut buf),
        Err(VfsError::OutOfRange {
            what: "read_exact_at",
            offset: 3,
            len: 2,
            bound: 4,
        })
    ));
}

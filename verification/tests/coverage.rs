//! The registry builder, the archive contract, the stream constructors and the default
//! findings.

use forensic_vfs::{
    ArchiveContents, ArchiveOpen, Allocation, ContainerDecoder, ContainerFormat, CryptoLayer,
    CryptoProbe, CryptoScheme, DirStream, DynCredentials, DynFs, DynSource, EncryptionLayer,
    EncryptionProbe, EncryptionScheme, ByteRun, ExtentStream, FileId, FileSystem, FileSystemProbe,
    FsKind, FsMeta, ImageSource, Listed, MacbTimes, Member, NodeKind, NodeStream, Registry,
    ResidencyKind, RunAlloc, RunFlags, RunInfo, SectorSizes, SniffWindow, StreamId,
    TimeZonePolicy, VfsResult, VolumeDesc, VolumeScheme, VolumeSystem, VolumeSystemProbe,
};

struct MemSource(Vec<u8>);
impl ImageSource for MemSource {
    fn len(&self) -> u64 {
        self.0.len() as u64
    }
    fn read_at(&self, offset: u64, buf: &mut [u8]) -> VfsResult<usize> {
        let off = usize::try_from(offset).unwrap_or(usize::MAX);
        let Some(src) = self.0.get(off..) else {
            return Ok(0);
        };
        let n = src.len().min(buf.len());
        buf[..n].copy_from_slice(&src[..n]);
        Ok(n)
    }
}

struct Dc;
impl ContainerDecoder for Dc {
    fn format(&self) -> ContainerFormat {
        ContainerFormat::Raw
    }
    fn probe(&self, _w: &SniffWindow) -> forensic_vfs::Confidence {
        forensic_vfs::Confidence::No
    }
    fn open(&self, src: DynSource) -> VfsResult<DynSource> {
        Ok(src)
    }
}
struct Vp;
impl VolumeSystemProbe for Vp {
    fn scheme(&self) -> VolumeScheme {
        VolumeScheme::Mbr
    }
    fn probe(&self, _w: &SniffWindow) -> forensic_vfs::Confidence {
        forensic_vfs::Confidence::No
    }
    fn open(&self, _src: DynSource) -> VfsResult<Box<dyn forensic_vfs::volume::VolumeSystem>> {
        Err(forensic_vfs::VfsError::Unsupported {
            layer: "vol",
            scheme: "test".to_string(),
        })
    }
}
struct Cp;
impl EncryptionProbe for Cp {
    fn scheme(&self) -> EncryptionScheme {
        EncryptionScheme::Luks1
    }
    fn probe(&self, _w: &SniffWindow) -> forensic_vfs::Confidence {
        forensic_vfs::Confidence::No
    }
    fn open(
        &self,
        _src: DynSource,
    ) -> VfsResult<Box<dyn forensic_vfs::encryption::EncryptionLayer>> {
        Err(forensic_vfs::VfsError::Unsupported {
            layer: "encryption",
            scheme: "test".to_string(),
        })
    }
}
struct Fp;
impl FileSystemProbe for Fp {
    fn kind(&self) -> FsKind {
        FsKind::Fat
    }
    fn probe(&self, _w: &SniffWindow) -> forensic_vfs::Confidence {
        forensic_vfs::Confidence::No
    }
    fn open(&self, _src: DynSource) -> VfsResult<forensic_vfs::fs::DynFs> {
        Err(forensic_vfs::VfsError::Unsupported {
            layer: "fs",
            scheme: "test".to_string(),
        })
    }
}
struct Ap;
impl ArchiveOpen for Ap {
    fn probe(&self, _w: &SniffWindow) -> forensic_vfs::Confidence {
        forensic_vfs::Confidence::No
    }
    fn open(&self, src: DynSource) -> VfsResult<ArchiveContents> {
        Ok(ArchiveContents::Stream(src))
    }
}

struct Kp;
impl CryptoProbe for Kp {
    fn scheme(&self) -> CryptoScheme {
        CryptoScheme::Luks1
    }
    fn probe(&self, _w: &SniffWindow) -> forensic_vfs::Confidence {
        forensic_vfs::Confidence::No
    }
    fn open(&self, _src: DynSource) -> VfsResult<Box<dyn CryptoLayer>> {
        Err(forensic_vfs::VfsError::Unsupported {
            layer: "crypto",
            scheme: "test".to_string(),
        })
    }
}

#[test]
fn coverage_registry_builder_registers_each_kind() {
    let reg = Registry::new()
        .container(Box::new(Dc))
        .volume_system(Box::new(Vp))
        .encryption(Box::new(Cp))
        .filesystem(Box::new(Fp))
        .archive(Box::new(Ap))
        .crypto(Box::new(Kp));
    assert_eq!(reg.containers().len(), 1);
    assert_eq!(reg.volume_systems().len(), 1);
    assert_eq!(reg.encryption_layers().len(), 1);
    assert_eq!(reg.filesystems().len(), 1);
    assert_eq!(reg.archives().len(), 1);
    assert_eq!(reg.crypto_layers().len(), 1);
    assert_eq!(reg.containers()[0].format(), ContainerFormat::Raw);
}

#[test]
fn archive_open_is_object_safe_and_contents_constructs_both_variants() {
    // `ArchiveOpen` must be usable as a trait object (the `Registry` table holds
    // `Box<dyn ArchiveOpen>`), and `ArchiveContents` must construct both arms.
    let ao: Box<dyn ArchiveOpen> = Box::new(Ap);
    let src: DynSource = DynSource::new(Box::new(MemSource(vec![1, 2, 3, 4])));
    let ArchiveContents::Stream(s) = ao.open(src).unwrap() else {
        panic!("Ap yields a Stream");
    };
    assert_eq!(s.len(), 4);
    let members = ArchiveContents::Members(vec![Member {
        name: b"inner.E01".to_vec(),
        source: DynSource::new(Box::new(MemSource(vec![0u8; 8]))),
    }]);
    let ArchiveContents::Members(m) = members else {
        panic!("constructed Members");
    };
    assert_eq!(m[0].name, b"inner.E01");
    assert_eq!(m[0].source.len(), 8);
}

#[test]
fn coverage_stream_constructors_yield_items() {
    let run = RunInfo {
        run: ByteRun {
            image_offset: 0,
            len: 16,
            flags: RunFlags::default(),
        },
        alloc: RunAlloc::Allocated,
    };
    let mut ext = ExtentStream::new(Box::new(Listed::new(vec![Ok(run)])));
    assert!(ext.next().is_some());
    assert!(ext.next().is_none());
    let mut nodes = NodeStream::new(Box::new(Listed::new(vec![])));
    assert!(nodes.next().is_none());
    assert!(DirStream::empty().next().is_none());
}

#[test]
fn coverage_findings_default_surfaces_are_empty() {
    struct F;
    impl FileSystem for F {
        fn kind(&self) -> FsKind {
            FsKind::Btrfs
        }
        fn root(&self) -> FileId {
            FileId::Opaque(0)
        }
        fn sector_sizes(&self) -> SectorSizes {
            SectorSizes {
                logical: 512,
                physical: 512,
                cluster_or_block: 512,
            }
        }
        fn timestamp_zone(&self) -> TimeZonePolicy {
            TimeZonePolicy::LocalUnknown
        }
        fn read_dir(&self, _i: FileId) -> VfsResult<DirStream> {
            Ok(DirStream::empty())
        }
        fn extents(&self, _i: FileId, _s: StreamId) -> VfsResult<ExtentStream> {
            Ok(ExtentStream::empty())
        }
        fn lookup(&self, _p: FileId, _n: &[u8]) -> VfsResult<Option<FileId>> {
            Ok(None)
        }
        fn meta(&self, _i: FileId) -> VfsResult<FsMeta> {
            Ok(FsMeta {
                ino: 0,
                kind: NodeKind::Dir,
                allocated: Allocation::Allocated,
                size: 0,
                nlink: 1,
                uid: None,
                gid: None,
                mode: None,
                times: MacbTimes::default(),
                streams: Vec::new(),
                residency: ResidencyKind::NonResident,
                link_target: None,
            })
        }
        fn read_at(&self, _i: FileId, _s: StreamId, _o: u64, _b: &mut [u8]) -> VfsResult<usize> {
            Ok(0)
        }
        fn read_link(&self, _i: FileId, _c: usize) -> VfsResult<Vec<u8>> {
            Ok(Vec::new())
        }
        fn deleted(&self) -> VfsResult<NodeStream> {
            Ok(NodeStream::empty())
        }
        fn unallocated(&self) -> VfsResult<ExtentStream> {
            Ok(ExtentStream::empty())
        }
    }
    struct V;
    impl VolumeSystem for V {
        fn scheme(&self) -> VolumeScheme {
            VolumeScheme::Mbr
        }
        fn volumes(&self) -> &[VolumeDesc] {
            &[]
        }
        fn open_volume(&self, _i: usize) -> VfsResult<DynSource> {
            Ok(DynSource::new(Box::new(MemSource(Vec::new()))))
        }
    }

    struct C;
    impl EncryptionLayer for C {
        fn scheme(&self) -> EncryptionScheme {
            EncryptionScheme::FileVault
        }
        fn open(&self, _c: &DynCredentials) -> VfsResult<DynSource> {
            Ok(DynSource::new(Box::new(MemSource(Vec::new()))))
        }
    }

    struct K;
    impl CryptoLayer for K {
        fn scheme(&self) -> CryptoScheme {
            CryptoScheme::FileVault
        }
        fn open(&self, _c: &DynCredentials) -> VfsResult<DynSource> {
            Ok(DynSource::new(Box::new(MemSource(Vec::new()))))
        }
    }

    let fs: DynFs = DynFs::new(Box::new(F));
    assert!(fs.findings().unwrap().is_empty());
    assert!(V.findings().unwrap().is_empty());
    assert!(C.findings().unwrap().is_empty());
    assert!(K.findings().unwrap().is_empty());
}

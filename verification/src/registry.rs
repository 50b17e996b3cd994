//! The prober contracts and the dispatch table.
//!
//! A reader implements one of the prober traits; a [`Registry`] holds every reader in
//! the order of registration, so detection is deterministic.

use vstd::prelude::*;
use vstd::slice::slice_subrange;

use crate::archive::ArchiveContents;
use crate::crypto::{CryptoLayer, CryptoScheme};
use crate::encryption::{EncryptionLayer, EncryptionScheme};
use crate::error::VfsResult;
use crate::fs::{DynFs, FsKind};
use crate::source::DynSource;
use crate::text::same_bytes;
use crate::volume::{VolumeScheme, VolumeSystem};

verus! {

broadcast use vstd::seq::group_seq_axioms;

/// The outer container or image format.
#[derive(Debug, Clone, Copy, PartialEq, Eq, Hash, Structural)]
#[non_exhaustive]
pub enum ContainerFormat {
    Ewf,
    Vmdk,
    Vhdx,
    Vhd,
    Qcow2,
    Dmg,
    Aff4,
    Ad1,
    Dar,
    /// A flat raw image, without a wrapper.
    Raw,
    /// Sniff the format at resolve time.
    Auto,
}

/// A prober's verdict. `Yes` carries how it matched.
#[derive(Debug, Clone, Copy, PartialEq, Eq)]
pub enum Confidence {
    No,
    Maybe,
    Yes { how: &'static str },
}

impl Confidence {
    /// True for `Yes` and `Maybe`: worth attempting `open`.
    pub fn is_candidate(self) -> (r: bool)
        ensures
            r == !(self is No),
    {
        match self {
            Confidence::No => false,
            _ => true,
        }
    }

    /// True only for a definite `Yes`.
    pub fn is_yes(self) -> (r: bool)
        ensures
            r == (self is Yes),
    {
        match self {
            Confidence::Yes { .. } => true,
            _ => false,
        }
    }
}

/// A bounded window of bytes handed to a prober: a prefix of the source (the head)
/// and where it starts, the source's total length, and its last bytes (the tail), so
/// that a prober can match a trailer that the head never reaches.
pub struct SniffWindow<'a> {
    base: u64,
    bytes: &'a [u8],
    total_len: u64,
    tail: &'a [u8],
}

/// The model of a [`SniffWindow`].
#[verifier::ext_equal]
pub struct WindowModel {
    pub base: u64,
    pub bytes: Seq<u8>,
    pub total_len: u64,
    pub tail: Seq<u8>,
}

impl<'a> View for SniffWindow<'a> {
    type V = WindowModel;

    closed spec fn view(&self) -> WindowModel {
        WindowModel {
            base: self.base,
            bytes: self.bytes@,
            total_len: self.total_len,
            tail: self.tail@,
        }
    }
}

/// The `n` bytes of `s` at `off`, where they lie within it.
pub open spec fn piece(s: Seq<u8>, off: int, n: int) -> Option<Seq<u8>> {
    if 0 <= off && off + n <= s.len() {
        Some(s.subrange(off, off + n))
    } else {
        None
    }
}

/// The contents of an optional slice.
pub open spec fn contents(r: Option<&[u8]>) -> Option<Seq<u8>> {
    match r {
        Some(b) => Some(b@),
        None => None,
    }
}

impl WindowModel {
    /// The head holds `magic` at `off`.
    pub open spec fn has_magic(self, off: int, magic: Seq<u8>) -> bool {
        piece(self.bytes, off, magic.len() as int) == Some(magic)
    }

    /// The tail holds `magic`, starting `from_end` bytes before the end.
    pub open spec fn has_magic_from_end(self, from_end: int, magic: Seq<u8>) -> bool {
        piece(self.tail, self.tail.len() - from_end, magic.len() as int) == Some(magic)
    }
}

fn piece_at<'b>(s: &'b [u8], off: usize, n: usize) -> (r: Option<&'b [u8]>)
    ensures
        contents(r) == piece(s@, off as int, n as int),
{
    let len: usize = s.len();
    if n <= len && off <= len - n {
        Some(slice_subrange(s, off, off + n))
    } else {
        None
    }
}

impl<'a> SniffWindow<'a> {
    /// A head-only window of `bytes` that begins at `base`; the total length is where
    /// the bytes end, and the tail is empty.
    pub fn new(base: u64, bytes: &'a [u8]) -> (r: Self)
        ensures
            r@.base == base,
            r@.bytes == bytes@,
            r@.total_len == if base + bytes@.len() <= u64::MAX {
                base + bytes@.len()
            } else {
                u64::MAX as int
            },
            r@.tail == Seq::<u8>::empty(),
    {
        let total_len: u64 = base.saturating_add(bytes.len() as u64);
        SniffWindow { base, bytes, total_len, tail: slice_subrange(bytes, 0, 0) }
    }

    /// A window with both a head and a tail, and the source's total length. The tail
    /// must end where the source ends for the probes from the end to be right.
    pub fn with_tail(base: u64, bytes: &'a [u8], total_len: u64, tail: &'a [u8]) -> (r: Self)
        ensures
            r@ == (WindowModel { base, bytes: bytes@, total_len, tail: tail@ }),
    {
        SniffWindow { base, bytes, total_len, tail }
    }

    /// The absolute offset the window starts at.
    pub fn base(&self) -> (r: u64)
        ensures
            r == self@.base,
    {
        self.base
    }

    /// The head bytes.
    pub fn bytes(&self) -> (r: &[u8])
        ensures
            r@ == self@.bytes,
    {
        self.bytes
    }

    /// The total length of the source.
    pub fn total_len(&self) -> (r: u64)
        ensures
            r == self@.total_len,
    {
        self.total_len
    }

    /// The `n` bytes at window-relative `off`, or `None` out of range.
    pub fn at(&self, off: usize, n: usize) -> (r: Option<&[u8]>)
        ensures
            contents(r) == piece(self@.bytes, off as int, n as int),
    {
        piece_at(self.bytes, off, n)
    }

    /// True when the window has `magic` at window-relative `off`.
    pub fn has_magic(&self, off: usize, magic: &[u8]) -> (r: bool)
        ensures
            r == self@.has_magic(off as int, magic@),
    {
        match self.at(off, magic.len()) {
            Some(b) => same_bytes(b, magic),
            None => false,
        }
    }

    /// The `n` bytes of the tail that begin `from_end` bytes before the end, or `None`
    /// when the tail is too short.
    pub fn tail_at(&self, from_end: usize, n: usize) -> (r: Option<&[u8]>)
        ensures
            contents(r) == piece(self@.tail, self@.tail.len() - from_end, n as int),
    {
        if from_end <= self.tail.len() {
            piece_at(self.tail, self.tail.len() - from_end, n)
        } else {
            None
        }
    }

    /// True when the tail has `magic` starting `from_end` bytes before the end.
    pub fn has_magic_from_end(&self, from_end: usize, magic: &[u8]) -> (r: bool)
        ensures
            r == self@.has_magic_from_end(from_end as int, magic@),
    {
        match self.tail_at(from_end, magic.len()) {
            Some(b) => same_bytes(b, magic),
            None => false,
        }
    }
}

// ---------------------------------------------------------------------------
// Probers
// ---------------------------------------------------------------------------

/// Decodes an outer container to a raw byte stream.
pub trait ContainerDecoder: Send + Sync {
    open spec fn may_format(&self, f: ContainerFormat) -> bool {
        true
    }

    open spec fn may_probe(&self, w: WindowModel, c: Confidence) -> bool {
        true
    }

    open spec fn may_open(&self, src: DynSource, r: VfsResult<DynSource>) -> bool {
        true
    }

    fn format(&self) -> (f: ContainerFormat)
        ensures
            self.may_format(f),
    ;

    fn probe(&self, w: &SniffWindow) -> (c: Confidence)
        ensures
            self.may_probe(w@, c),
    ;

    fn open(&self, src: DynSource) -> (r: VfsResult<DynSource>)
        ensures
            self.may_open(src, r),
    ;
}

/// Recognizes and opens a partitioning or volume scheme.
pub trait VolumeSystemProbe: Send + Sync {
    open spec fn may_scheme(&self, s: VolumeScheme) -> bool {
        true
    }

    open spec fn may_probe(&self, w: WindowModel, c: Confidence) -> bool {
        true
    }

    open spec fn may_open(&self, src: DynSource, r: VfsResult<Box<dyn VolumeSystem>>) -> bool {
        true
    }

    fn scheme(&self) -> (s: VolumeScheme)
        ensures
            self.may_scheme(s),
    ;

    fn probe(&self, w: &SniffWindow) -> (c: Confidence)
        ensures
            self.may_probe(w@, c),
    ;

    fn open(&self, src: DynSource) -> (r: VfsResult<Box<dyn VolumeSystem>>)
        ensures
            self.may_open(src, r),
    ;
}

/// Recognizes and opens a full-disk-encryption layer.
pub trait EncryptionProbe: Send + Sync {
    open spec fn may_scheme(&self, s: EncryptionScheme) -> bool {
        true
    }

    open spec fn may_probe(&self, w: WindowModel, c: Confidence) -> bool {
        true
    }

    open spec fn may_open(&self, src: DynSource, r: VfsResult<Box<dyn EncryptionLayer>>) -> bool {
        true
    }

    fn scheme(&self) -> (s: EncryptionScheme)
        ensures
            self.may_scheme(s),
    ;

    fn probe(&self, w: &SniffWindow) -> (c: Confidence)
        ensures
            self.may_probe(w@, c),
    ;

    fn open(&self, src: DynSource) -> (r: VfsResult<Box<dyn EncryptionLayer>>)
        ensures
            self.may_open(src, r),
    ;
}

/// Recognizes and opens a volume-encryption layer named by a [`CryptoScheme`].
pub trait CryptoProbe: Send + Sync {
    fn scheme(&self) -> CryptoScheme;

    fn probe(&self, w: &SniffWindow) -> Confidence;

    fn open(&self, src: DynSource) -> VfsResult<Box<dyn CryptoLayer>>;
}

/// Recognizes and peels an archive or compression wrapper.
pub trait ArchiveOpen: Send + Sync {
    open spec fn may_probe(&self, w: WindowModel, c: Confidence) -> bool {
        true
    }

    open spec fn may_open(&self, src: DynSource, r: VfsResult<ArchiveContents>) -> bool {
        true
    }

    fn probe(&self, w: &SniffWindow) -> (c: Confidence)
        ensures
            self.may_probe(w@, c),
    ;

    fn open(&self, src: DynSource) -> (r: VfsResult<ArchiveContents>)
        ensures
            self.may_open(src, r),
    ;
}

/// Recognizes and mounts a filesystem.
pub trait FileSystemProbe: Send + Sync {
    open spec fn may_kind(&self, k: FsKind) -> bool {
        true
    }

    open spec fn may_probe(&self, w: WindowModel, c: Confidence) -> bool {
        true
    }

    open spec fn may_open(&self, src: DynSource, r: VfsResult<DynFs>) -> bool {
        true
    }

    fn kind(&self) -> (k: FsKind)
        ensures
            self.may_kind(k),
    ;

    fn probe(&self, w: &SniffWindow) -> (c: Confidence)
        ensures
            self.may_probe(w@, c),
    ;

    fn open(&self, src: DynSource) -> (r: VfsResult<DynFs>)
        ensures
            self.may_open(src, r),
    ;
}

// ---------------------------------------------------------------------------
// The table
// ---------------------------------------------------------------------------

/// The dispatch table: the probers of each layer, in registration order.
pub struct Registry {
    containers: Vec<Box<dyn ContainerDecoder>>,
    volume_systems: Vec<Box<dyn VolumeSystemProbe>>,
    encryption: Vec<Box<dyn EncryptionProbe>>,
    crypto: Vec<Box<dyn CryptoProbe>>,
    archives: Vec<Box<dyn ArchiveOpen>>,
    filesystems: Vec<Box<dyn FileSystemProbe>>,
}

/// The model of a [`Registry`].
#[verifier::ext_equal]
pub struct RegistryModel {
    pub containers: Seq<Box<dyn ContainerDecoder>>,
    pub volume_systems: Seq<Box<dyn VolumeSystemProbe>>,
    pub encryption: Seq<Box<dyn EncryptionProbe>>,
    pub crypto: Seq<Box<dyn CryptoProbe>>,
    pub archives: Seq<Box<dyn ArchiveOpen>>,
    pub filesystems: Seq<Box<dyn FileSystemProbe>>,
}

impl View for Registry {
    type V = RegistryModel;

    closed spec fn view(&self) -> RegistryModel {
        RegistryModel {
            containers: self.containers@,
            volume_systems: self.volume_systems@,
            encryption: self.encryption@,
            crypto: self.crypto@,
            archives: self.archives@,
            filesystems: self.filesystems@,
        }
    }
}

/// The table without probers.
pub open spec fn empty_registry() -> RegistryModel {
    RegistryModel {
        containers: Seq::empty(),
        volume_systems: Seq::empty(),
        encryption: Seq::empty(),
        crypto: Seq::empty(),
        archives: Seq::empty(),
        filesystems: Seq::empty(),
    }
}

/// One prober more, after the others.
pub open spec fn grows<P>(now: Seq<P>, before: Seq<P>) -> bool {
    now.len() == before.len() + 1 && now.drop_last() == before
}

impl Default for Registry {
    fn default() -> (r: Self)
        ensures
            r@ == empty_registry(),
    {
        Registry {
            containers: Vec::new(),
            volume_systems: Vec::new(),
            encryption: Vec::new(),
            crypto: Vec::new(),
            archives: Vec::new(),
            filesystems: Vec::new(),
        }
    }
}

impl Registry {
    /// An empty registry.
    pub fn new() -> (r: Self)
        ensures
            r@ == empty_registry(),
    {
        Registry::default()
    }

    /// Register a container decoder.
    pub fn container(self, d: Box<dyn ContainerDecoder>) -> (r: Self)
        ensures
            grows(r@.containers, self@.containers),
            r@.containers.last() == d,
            r@ == (RegistryModel { containers: r@.containers, ..self@ }),
    {
        let mut s = self;
        let mut one = Vec::new();
        one.push(d);
        s.containers.append(&mut one);
        assert(s.containers@.drop_last() =~= self@.containers);
        s
    }

    /// Register a volume-system prober.
    pub fn volume_system(self, p: Box<dyn VolumeSystemProbe>) -> (r: Self)
        ensures
            grows(r@.volume_systems, self@.volume_systems),
            r@.volume_systems.last() == p,
            r@ == (RegistryModel { volume_systems: r@.volume_systems, ..self@ }),
    {
        let mut s = self;
        let mut one = Vec::new();
        one.push(p);
        s.volume_systems.append(&mut one);
        assert(s.volume_systems@.drop_last() =~= self@.volume_systems);
        s
    }

    /// Register an encryption prober.
    pub fn encryption(self, p: Box<dyn EncryptionProbe>) -> (r: Self)
        ensures
            grows(r@.encryption, self@.encryption),
            r@.encryption.last() == p,
            r@ == (RegistryModel { encryption: r@.encryption, ..self@ }),
    {
        let mut s = self;
        let mut one = Vec::new();
        one.push(p);
        s.encryption.append(&mut one);
        assert(s.encryption@.drop_last() =~= self@.encryption);
        s
    }

    /// Register a volume-encryption prober.
    pub fn crypto(self, p: Box<dyn CryptoProbe>) -> (r: Self)
        ensures
            grows(r@.crypto, self@.crypto),
            r@.crypto.last() == p,
            r@ == (RegistryModel { crypto: r@.crypto, ..self@ }),
    {
        let mut s = self;
        let mut one = Vec::new();
        one.push(p);
        s.crypto.append(&mut one);
        assert(s.crypto@.drop_last() =~= self@.crypto);
        s
    }

    /// Register an archive peeler.
    pub fn archive(self, p: Box<dyn ArchiveOpen>) -> (r: Self)
        ensures
            grows(r@.archives, self@.archives),
            r@.archives.last() == p,
            r@ == (RegistryModel { archives: r@.archives, ..self@ }),
    {
        let mut s = self;
        let mut one = Vec::new();
        one.push(p);
        s.archives.append(&mut one);
        assert(s.archives@.drop_last() =~= self@.archives);
        s
    }

    /// Register a filesystem prober.
    pub fn filesystem(self, p: Box<dyn FileSystemProbe>) -> (r: Self)
        ensures
            grows(r@.filesystems, self@.filesystems),
            r@.filesystems.last() == p,
            r@ == (RegistryModel { filesystems: r@.filesystems, ..self@ }),
    {
        let mut s = self;
        let mut one = Vec::new();
        one.push(p);
        s.filesystems.append(&mut one);
        assert(s.filesystems@.drop_last() =~= self@.filesystems);
        s
    }

    /// Register the filesystem probers, in order, in place of those registered.
    pub fn with_filesystems(self, probers: Vec<Box<dyn FileSystemProbe>>) -> (r: Self)
        ensures
            r@ == (RegistryModel { filesystems: probers@, ..self@ }),
    {
        Registry { filesystems: probers, ..self }
    }

    /// The registered container decoders, in registration order.
    pub fn containers(&self) -> (r: &[Box<dyn ContainerDecoder>])
        ensures
            r@ == self@.containers,
    {
        self.containers.as_slice()
    }

    /// The registered volume-system probers.
    pub fn volume_systems(&self) -> (r: &[Box<dyn VolumeSystemProbe>])
        ensures
            r@ == self@.volume_systems,
    {
        self.volume_systems.as_slice()
    }

    /// The registered encryption probers.
    pub fn encryption_layers(&self) -> (r: &[Box<dyn EncryptionProbe>])
        ensures
            r@ == self@.encryption,
    {
        self.encryption.as_slice()
    }

    /// The registered volume-encryption probers.
    pub fn crypto_layers(&self) -> (r: &[Box<dyn CryptoProbe>])
        ensures
            r@ == self@.crypto,
    {
        self.crypto.as_slice()
    }

    /// The registered archive peelers.
    pub fn archives(&self) -> (r: &[Box<dyn ArchiveOpen>])
        ensures
            r@ == self@.archives,
    {
        self.archives.as_slice()
    }

    /// The registered filesystem probers.
    pub fn filesystems(&self) -> (r: &[Box<dyn FileSystemProbe>])
        ensures
            r@ == self@.filesystems,
    {
        self.filesystems.as_slice()
    }
}

/// A registry holds no more encryption probers than a table can.
pub(crate) proof fn lemma_probers_fit(reg: Registry)
    ensures
        reg@.encryption.len() <= usize::MAX,
{
    assert(reg.encryption.len() == reg.encryption@.len());
}

} // verus!

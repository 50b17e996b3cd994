//! The filesystem navigation contract and its unified forensic metadata.
//!
//! One mounted, read-only filesystem is a [`DynFs`]: reads take `&self`, so many
//! workers share one handle, and bulk enumerations are owned streams that are pulled
//! item by item. [`FileId`] is a filesystem-specific identity, because a reallocated
//! record or a reused inode must never be confused with the original.
//!
//! As with a byte source, what an implementation answers is described by relations.

use std::sync::Arc;

use vstd::prelude::*;

use crate::error::VfsResult;
use crate::text::bytes_to_vec;

/// Filesystem-specific stable identity.
pub use forensicnomicon_core::FileId;

verus! {

broadcast use vstd::seq::group_seq_axioms;

/// `forensicnomicon_core::FileId`, with its variants.
#[verifier::external_type_specification]
pub struct ExFileId(forensicnomicon_core::FileId);

/// `forensicnomicon::report::Finding`, carried through as it is.
#[verifier::external_type_specification]
#[verifier::external_body]
pub struct ExFinding(forensicnomicon::report::Finding);

/// A named data stream of a node: metadata only, its runs come from
/// [`FileSystem::extents`].
#[derive(Debug, PartialEq, Eq)]
pub struct StreamInfo {
    pub id: StreamId,
    pub name: Option<Vec<u8>>,
    pub size: u64,
    pub residency: ResidencyKind,
    pub kind: StreamKind,
}

/// Which stream of a node an operation addresses.
#[derive(Debug, Clone, Copy, PartialEq, Eq, Hash, Structural)]
#[non_exhaustive]
pub enum StreamId {
    Default,
    Named(u16),
    ResourceFork,
    Xattr(u16),
    Slack,
}

/// Stream taxonomy: not every named stream is an alternate data stream.
#[derive(Debug, Clone, Copy, PartialEq, Eq, Structural)]
#[non_exhaustive]
pub enum StreamKind {
    NtfsData,
    NtfsAds,
    HfsResourceFork,
    ApfsNamed,
    Xattr,
    SyntheticSlack,
}

/// Whether a stream's bytes live inline in the metadata record or out in runs.
#[derive(Debug, Clone, Copy, PartialEq, Eq, Structural)]
#[non_exhaustive]
pub enum ResidencyKind {
    Resident { inline_len: u32 },
    NonResident,
}

/// Name and metadata allocation status.
#[derive(Debug, Clone, Copy, PartialEq, Eq, Structural)]
#[non_exhaustive]
pub enum Allocation {
    Allocated,
    Deleted,
    Orphan,
}

/// What kind of node this is.
#[derive(Debug, Clone, Copy, PartialEq, Eq, Structural)]
#[non_exhaustive]
pub enum NodeKind {
    File,
    Dir,
    Symlink,
    Device,
    Other,
}

/// Where a timestamp came from; two sources that disagree are a tamper signal.
#[derive(Debug, Clone, Copy, PartialEq, Eq, Structural)]
#[non_exhaustive]
pub enum TimeSource {
    /// NTFS `$STANDARD_INFORMATION`.
    Si,
    /// NTFS `$FILE_NAME`.
    Fn,
    /// A Unix inode table.
    InodeTable,
    /// A directory entry.
    DirEntry,
    /// Not distinguished by the reader.
    Unspecified,
}

/// Native granularity of a timestamp.
#[derive(Debug, Clone, Copy, PartialEq, Eq, Structural)]
#[non_exhaustive]
pub enum TimeResolution {
    /// Windows FILETIME, 100 ns ticks.
    WinFileTime,
    Nanos,
    Micros,
    Seconds,
    /// FAT last-modified is quantized to 2 seconds.
    TwoSeconds,
}

/// One timestamp with its provenance.
#[derive(Debug, Clone, Copy, PartialEq, Eq, Structural)]
pub struct TimeStamp {
    /// Nanoseconds since the Unix epoch.
    pub unix_nanos: i128,
    pub source: TimeSource,
    pub resolution: TimeResolution,
}

/// Modification, access, change and birth times. An absent field is not present in
/// the filesystem, which is not the same as an epoch-zero value.
#[derive(Debug, Clone, Copy, Default, PartialEq, Eq)]
pub struct MacbTimes {
    pub modified: Option<TimeStamp>,
    pub accessed: Option<TimeStamp>,
    /// Metadata change.
    pub changed: Option<TimeStamp>,
    /// Creation.
    pub born: Option<TimeStamp>,
}

/// How a volume's timestamps are anchored.
#[derive(Debug, Clone, Copy, PartialEq, Eq, Structural)]
#[non_exhaustive]
pub enum TimeZonePolicy {
    Utc,
    LocalUnknown,
    Local { minutes_east: i16 },
}

/// Logical and physical sector sizes and the cluster or block size.
#[derive(Debug, Clone, Copy, PartialEq, Eq, Structural)]
pub struct SectorSizes {
    pub logical: u32,
    pub physical: u32,
    pub cluster_or_block: u32,
}

/// Flags on one data run.
#[derive(Debug, Clone, Copy, PartialEq, Eq, Default)]
pub struct RunFlags {
    pub sparse: bool,
    pub encrypted: bool,
    pub compressed: bool,
    /// A placeholder run, such as a sparse hole rendered as zeros.
    pub filler: bool,
}

/// A physical byte run in the underlying image.
#[derive(Debug, Clone, Copy, PartialEq, Eq)]
pub struct ByteRun {
    pub image_offset: u64,
    pub len: u64,
    pub flags: RunFlags,
}

/// Run-level allocation, independent of [`FsMeta::allocated`].
#[derive(Debug, Clone, Copy, PartialEq, Eq, Structural)]
#[non_exhaustive]
pub enum RunAlloc {
    Allocated,
    Unallocated,
    Overwritten,
    Unknown,
}

/// One run and its allocation provenance.
#[derive(Debug, Clone, Copy, PartialEq, Eq)]
pub struct RunInfo {
    pub run: ByteRun,
    pub alloc: RunAlloc,
}

/// One directory entry.
#[derive(Debug, PartialEq, Eq)]
pub struct DirEntry {
    pub name: Vec<u8>,
    pub id: FileId,
    pub kind: NodeKind,
}

/// A hard link: a parent directory and the name under it.
#[derive(Debug, PartialEq, Eq)]
pub struct HardLink {
    pub parent: FileId,
    pub name: Vec<u8>,
}

/// The unified forensic metadata record.
#[derive(Debug, PartialEq, Eq)]
pub struct FsMeta {
    /// Metadata address (record or inode number).
    pub ino: u64,
    pub kind: NodeKind,
    /// Name and metadata status.
    pub allocated: Allocation,
    pub size: u64,
    pub nlink: u32,
    pub uid: Option<u32>,
    pub gid: Option<u32>,
    pub mode: Option<u32>,
    pub times: MacbTimes,
    /// The default stream and the named ones (metadata only).
    pub streams: Vec<StreamInfo>,
    pub residency: ResidencyKind,
    pub link_target: Option<Vec<u8>>,
}

/// A recovered deleted or orphaned node: a readable identity, the recovered name
/// (possibly partial, never fabricated) and the parent, absent for an orphan.
#[derive(Debug, PartialEq, Eq)]
pub struct DeletedNode {
    pub id: FileId,
    pub name: Vec<u8>,
    pub parent: Option<FileId>,
    pub meta: FsMeta,
}

/// The filesystem family.
#[derive(Debug, Clone, Copy, PartialEq, Eq, Hash, Structural)]
#[non_exhaustive]
pub enum FsKind {
    Ntfs,
    Fat,
    ExFat,
    Ext,
    Xfs,
    Apfs,
    HfsPlus,
    Iso9660,
    Udf,
    Btrfs,
    Zfs,
    Ufs,
    Refs,
    Zip,
    Ad1,
    Dar,
    Other,
}

// ---------------------------------------------------------------------------
// Copies
// ---------------------------------------------------------------------------

/// Optional bytes, by their contents.
pub open spec fn optional_bytes(v: Option<Vec<u8>>) -> Option<Seq<u8>> {
    match v {
        Some(b) => Some(b@),
        None => None,
    }
}

fn clone_optional_bytes(v: &Option<Vec<u8>>) -> (r: Option<Vec<u8>>)
    ensures
        optional_bytes(r) == optional_bytes(*v),
{
    match v {
        Some(b) => Some(bytes_to_vec(b.as_slice())),
        None => None,
    }
}

impl StreamInfo {
    /// The two records hold the same values.
    pub open spec fn same(&self, other: &StreamInfo) -> bool {
        &&& self.id == other.id
        &&& optional_bytes(self.name) == optional_bytes(other.name)
        &&& self.size == other.size
        &&& self.residency == other.residency
        &&& self.kind == other.kind
    }
}

impl Clone for StreamInfo {
    fn clone(&self) -> (r: Self)
        ensures
            r.same(self),
    {
        StreamInfo {
            id: self.id,
            name: clone_optional_bytes(&self.name),
            size: self.size,
            residency: self.residency,
            kind: self.kind,
        }
    }
}

impl Clone for DirEntry {
    fn clone(&self) -> (r: Self)
        ensures
            r.name@ == self.name@,
            r.id == self.id,
            r.kind == self.kind,
    {
        DirEntry { name: bytes_to_vec(self.name.as_slice()), id: self.id, kind: self.kind }
    }
}

impl Clone for HardLink {
    fn clone(&self) -> (r: Self)
        ensures
            r.parent == self.parent,
            r.name@ == self.name@,
    {
        HardLink { parent: self.parent, name: bytes_to_vec(self.name.as_slice()) }
    }
}

impl FsMeta {
    /// The two records hold the same values.
    pub open spec fn same(&self, other: &FsMeta) -> bool {
        &&& self.ino == other.ino
        &&& self.kind == other.kind
        &&& self.allocated == other.allocated
        &&& self.size == other.size
        &&& self.nlink == other.nlink
        &&& self.uid == other.uid
        &&& self.gid == other.gid
        &&& self.mode == other.mode
        &&& self.times == other.times
        &&& self.streams@.len() == other.streams@.len()
        &&& forall|i: int|
            0 <= i < self.streams@.len() ==> (#[trigger] self.streams@[i]).same(&other.streams@[i])
        &&& self.residency == other.residency
        &&& optional_bytes(self.link_target) == optional_bytes(other.link_target)
    }
}

impl Clone for FsMeta {
    fn clone(&self) -> (r: Self)
        ensures
            r.same(self),
    {
        let mut streams: Vec<StreamInfo> = Vec::new();
        let mut i: usize = 0;
        while i < self.streams.len()
            invariant
                0 <= i <= self.streams.len(),
                streams@.len() == i,
                forall|k: int| 0 <= k < i ==> (#[trigger] streams@[k]).same(&self.streams@[k]),
            decreases self.streams.len() - i,
        {
            streams.push(self.streams[i].clone());
            i = i + 1;
        }
        FsMeta {
            ino: self.ino,
            kind: self.kind,
            allocated: self.allocated,
            size: self.size,
            nlink: self.nlink,
            uid: self.uid,
            gid: self.gid,
            mode: self.mode,
            times: self.times,
            streams,
            residency: self.residency,
            link_target: clone_optional_bytes(&self.link_target),
        }
    }
}

impl Clone for DeletedNode {
    fn clone(&self) -> (r: Self)
        ensures
            r.id == self.id,
            r.name@ == self.name@,
            r.parent == self.parent,
            r.meta.same(&self.meta),
    {
        DeletedNode {
            id: self.id,
            name: bytes_to_vec(self.name.as_slice()),
            parent: self.parent,
            meta: self.meta.clone(),
        }
    }
}

// ---------------------------------------------------------------------------
// Streams
// ---------------------------------------------------------------------------

/// A finite, owned supply of items, pulled one by one: never borrowed from the
/// filesystem, never held in memory as a whole.
pub trait ItemSource<T>: Send {
    /// The next pulls may give exactly `items`, in order; `done` when nothing follows
    /// them.
    open spec fn may_yield(&self, items: Seq<VfsResult<T>>, done: bool) -> bool {
        true
    }

    /// No more than this many items are left: a supply ends.
    open spec fn bound(&self) -> nat {
        arbitrary()
    }

    /// The next item, if there is one.
    fn next(&mut self) -> (r: Option<VfsResult<T>>)
        ensures
            final(self).may_yield(Seq::empty(), false),
            match r {
                Some(item) => {
                    &&& final(self).bound() < old(self).bound()
                    &&& forall|rest: Seq<VfsResult<T>>, done: bool| #[trigger]
                        final(self).may_yield(rest, done) ==> old(self).may_yield(
                            seq![item] + rest,
                            done,
                        )
                },
                None => old(self).may_yield(Seq::empty(), true),
            },
    ;
}

/// A supply of items that are at hand already.
pub struct Listed<T> {
    /// The items that are left, the next one last.
    left: Vec<VfsResult<T>>,
}

impl<T> Listed<T> {
    /// The items that are left, in order.
    pub closed spec fn items(&self) -> Seq<VfsResult<T>> {
        self.left@.reverse()
    }

    /// A supply of these items.
    pub fn new(items: Vec<VfsResult<T>>) -> (r: Self)
        ensures
            r.items() == items@,
    {
        let mut rest = items;
        let mut left: Vec<VfsResult<T>> = Vec::new();
        loop
            invariant
                items@ == rest@ + left@.reverse(),
            decreases rest.len(),
        {
            let ghost before = left@;
            match rest.pop() {
                Some(item) => {
                    left.push(item);
                    assert(left@.reverse() =~= seq![item] + before.reverse());
                    assert(rest@ + left@.reverse() =~= rest@.push(item) + before.reverse());
                },
                None => {
                    assert(rest@ + left@.reverse() =~= left@.reverse());
                    return Listed { left };
                },
            }
        }
    }
}

impl<T: Send> ItemSource<T> for Listed<T> {
    /// Some of the items that are left, from the next one on; all of them when nothing
    /// follows.
    open spec fn may_yield(&self, items: Seq<VfsResult<T>>, done: bool) -> bool {
        &&& items.len() <= self.items().len()
        &&& items == self.items().take(items.len() as int)
        &&& done ==> items.len() == self.items().len()
    }

    open spec fn bound(&self) -> nat {
        self.items().len()
    }

    fn next(&mut self) -> (r: Option<VfsResult<T>>) {
        let ghost before = self.items();
        let r = self.left.pop();
        proof {
            let after = self.items();
            assert(after.take(0) =~= Seq::empty());
            assert(before.take(0) =~= Seq::empty());
            if r is Some {
                let item = r->0;
                assert(before =~= seq![item] + after);
                assert forall|rest: Seq<VfsResult<T>>, done: bool| #[trigger]
                    self.may_yield(rest, done) implies old(self).may_yield(
                    seq![item] + rest,
                    done,
                ) by {
                    let longer = seq![item] + rest;
                    assert(longer =~= before.take(longer.len() as int));
                }
            }
        }
        r
    }
}

/// An owned stream of directory entries.
pub struct DirStream {
    supply: Option<Box<dyn ItemSource<DirEntry>>>,
}

impl DirStream {
    /// The next pulls may give exactly `items`, in order; `done` when nothing follows
    /// them.
    pub closed spec fn may_yield(&self, items: Seq<VfsResult<DirEntry>>, done: bool) -> bool {
        match self.supply {
            Some(s) => s.may_yield(items, done),
            None => items.len() == 0,
        }
    }

    /// No more than this many items are left.
    pub closed spec fn bound(&self) -> nat {
        match self.supply {
            Some(s) => s.bound(),
            None => 0,
        }
    }

    /// A stream of what the supply gives.
    pub fn new(supply: Box<dyn ItemSource<DirEntry>>) -> (r: Self)
        ensures
            r.bound() == supply.bound(),
            forall|items: Seq<VfsResult<DirEntry>>, done: bool| #[trigger]
                r.may_yield(items, done) <==> supply.may_yield(items, done),
    {
        let held = Some(supply);
        DirStream { supply: held }
    }

    /// A stream without items.
    pub fn empty() -> (r: Self)
        ensures
            r.bound() == 0,
            forall|items: Seq<VfsResult<DirEntry>>, done: bool| #[trigger]
                r.may_yield(items, done) <==> items.len() == 0,
    {
        DirStream { supply: None }
    }

    /// The next item, if there is one.
    pub fn next(&mut self) -> (r: Option<VfsResult<DirEntry>>)
        ensures
            final(self).may_yield(Seq::empty(), false),
            match r {
                Some(item) => {
                    &&& final(self).bound() < old(self).bound()
                    &&& forall|rest: Seq<VfsResult<DirEntry>>, done: bool| #[trigger]
                        final(self).may_yield(rest, done) ==> old(self).may_yield(
                            seq![item] + rest,
                            done,
                        )
                },
                None => old(self).may_yield(Seq::empty(), true),
            },
    {
        match &mut self.supply {
            Some(s) => s.next(),
            None => None,
        }
    }
}

/// An owned stream of allocation-tagged runs.
pub struct ExtentStream {
    supply: Option<Box<dyn ItemSource<RunInfo>>>,
}

impl ExtentStream {
    /// The next pulls may give exactly `items`, in order; `done` when nothing follows
    /// them.
    pub closed spec fn may_yield(&self, items: Seq<VfsResult<RunInfo>>, done: bool) -> bool {
        match self.supply {
            Some(s) => s.may_yield(items, done),
            None => items.len() == 0,
        }
    }

    /// No more than this many items are left.
    pub closed spec fn bound(&self) -> nat {
        match self.supply {
            Some(s) => s.bound(),
            None => 0,
        }
    }

    /// A stream of what the supply gives.
    pub fn new(supply: Box<dyn ItemSource<RunInfo>>) -> (r: Self)
        ensures
            r.bound() == supply.bound(),
            forall|items: Seq<VfsResult<RunInfo>>, done: bool| #[trigger]
                r.may_yield(items, done) <==> supply.may_yield(items, done),
    {
        let held = Some(supply);
        ExtentStream { supply: held }
    }

    /// A stream without items.
    pub fn empty() -> (r: Self)
        ensures
            r.bound() == 0,
            forall|items: Seq<VfsResult<RunInfo>>, done: bool| #[trigger]
                r.may_yield(items, done) <==> items.len() == 0,
    {
        ExtentStream { supply: None }
    }

    /// The next item, if there is one.
    pub fn next(&mut self) -> (r: Option<VfsResult<RunInfo>>)
        ensures
            final(self).may_yield(Seq::empty(), false),
            match r {
                Some(item) => {
                    &&& final(self).bound() < old(self).bound()
                    &&& forall|rest: Seq<VfsResult<RunInfo>>, done: bool| #[trigger]
                        final(self).may_yield(rest, done) ==> old(self).may_yield(
                            seq![item] + rest,
                            done,
                        )
                },
                None => old(self).may_yield(Seq::empty(), true),
            },
    {
        match &mut self.supply {
            Some(s) => s.next(),
            None => None,
        }
    }
}

/// An owned stream of nodes, for deleted and orphaned ones.
pub struct NodeStream {
    supply: Option<Box<dyn ItemSource<FsMeta>>>,
}

impl NodeStream {
    /// The next pulls may give exactly `items`, in order; `done` when nothing follows
    /// them.
    pub closed spec fn may_yield(&self, items: Seq<VfsResult<FsMeta>>, done: bool) -> bool {
        match self.supply {
            Some(s) => s.may_yield(items, done),
            None => items.len() == 0,
        }
    }

    /// No more than this many items are left.
    pub closed spec fn bound(&self) -> nat {
        match self.supply {
            Some(s) => s.bound(),
            None => 0,
        }
    }

    /// A stream of what the supply gives.
    pub fn new(supply: Box<dyn ItemSource<FsMeta>>) -> (r: Self)
        ensures
            r.bound() == supply.bound(),
            forall|items: Seq<VfsResult<FsMeta>>, done: bool| #[trigger]
                r.may_yield(items, done) <==> supply.may_yield(items, done),
    {
        let held = Some(supply);
        NodeStream { supply: held }
    }

    /// A stream without items.
    pub fn empty() -> (r: Self)
        ensures
            r.bound() == 0,
            forall|items: Seq<VfsResult<FsMeta>>, done: bool| #[trigger]
                r.may_yield(items, done) <==> items.len() == 0,
    {
        NodeStream { supply: None }
    }

    /// The next item, if there is one.
    pub fn next(&mut self) -> (r: Option<VfsResult<FsMeta>>)
        ensures
            final(self).may_yield(Seq::empty(), false),
            match r {
                Some(item) => {
                    &&& final(self).bound() < old(self).bound()
                    &&& forall|rest: Seq<VfsResult<FsMeta>>, done: bool| #[trigger]
                        final(self).may_yield(rest, done) ==> old(self).may_yield(
                            seq![item] + rest,
                            done,
                        )
                },
                None => old(self).may_yield(Seq::empty(), true),
            },
    {
        match &mut self.supply {
            Some(s) => s.next(),
            None => None,
        }
    }
}

/// An owned stream of deleted nodes with their recovered identity.
pub struct DeletedStream {
    supply: Option<Box<dyn ItemSource<DeletedNode>>>,
}

impl DeletedStream {
    /// The next pulls may give exactly `items`, in order; `done` when nothing follows
    /// them.
    pub closed spec fn may_yield(&self, items: Seq<VfsResult<DeletedNode>>, done: bool) -> bool {
        match self.supply {
            Some(s) => s.may_yield(items, done),
            None => items.len() == 0,
        }
    }

    /// No more than this many items are left.
    pub closed spec fn bound(&self) -> nat {
        match self.supply {
            Some(s) => s.bound(),
            None => 0,
        }
    }

    /// A stream of what the supply gives.
    pub fn new(supply: Box<dyn ItemSource<DeletedNode>>) -> (r: Self)
        ensures
            r.bound() == supply.bound(),
            forall|items: Seq<VfsResult<DeletedNode>>, done: bool| #[trigger]
                r.may_yield(items, done) <==> supply.may_yield(items, done),
    {
        let held = Some(supply);
        DeletedStream { supply: held }
    }

    /// A stream without items.
    pub fn empty() -> (r: Self)
        ensures
            r.bound() == 0,
            forall|items: Seq<VfsResult<DeletedNode>>, done: bool| #[trigger]
                r.may_yield(items, done) <==> items.len() == 0,
    {
        DeletedStream { supply: None }
    }

    /// The next item, if there is one.
    pub fn next(&mut self) -> (r: Option<VfsResult<DeletedNode>>)
        ensures
            final(self).may_yield(Seq::empty(), false),
            match r {
                Some(item) => {
                    &&& final(self).bound() < old(self).bound()
                    &&& forall|rest: Seq<VfsResult<DeletedNode>>, done: bool| #[trigger]
                        final(self).may_yield(rest, done) ==> old(self).may_yield(
                            seq![item] + rest,
                            done,
                        )
                },
                None => old(self).may_yield(Seq::empty(), true),
            },
    {
        match &mut self.supply {
            Some(s) => s.next(),
            None => None,
        }
    }
}

// ---------------------------------------------------------------------------
// The contract
// ---------------------------------------------------------------------------

/// One mounted, read-only filesystem. Reads take `&self` and share one handle across
/// workers.
pub trait FileSystem: Send + Sync {
    /// `kind` may answer `k`.
    open spec fn may_kind(&self, k: FsKind) -> bool {
        true
    }

    /// `root` may answer `id`.
    open spec fn may_root(&self, id: FileId) -> bool {
        true
    }

    /// `read_dir` of `ino` may answer `r`.
    open spec fn may_read_dir(&self, ino: FileId, r: VfsResult<DirStream>) -> bool {
        true
    }

    /// `meta` of `ino` may answer `r`.
    open spec fn may_meta(&self, ino: FileId, r: VfsResult<FsMeta>) -> bool {
        true
    }

    fn kind(&self) -> (k: FsKind)
        ensures
            self.may_kind(k),
    ;

    fn root(&self) -> (id: FileId)
        ensures
            self.may_root(id),
    ;

    fn sector_sizes(&self) -> SectorSizes;

    fn timestamp_zone(&self) -> TimeZonePolicy;

    /// The filesystem's own volume label, or `None` when the volume is unlabelled or
    /// the reader does not extract it.
    fn volume_label(&self) -> (r: Option<String>)
        default_ensures
            r is None,
    {
        None
    }

    /// Stream the children of a directory.
    fn read_dir(&self, ino: FileId) -> (r: VfsResult<DirStream>)
        ensures
            self.may_read_dir(ino, r),
    ;

    /// Stream the runs of one data stream of a node.
    fn extents(&self, ino: FileId, stream: StreamId) -> VfsResult<ExtentStream>;

    fn lookup(&self, parent: FileId, name: &[u8]) -> VfsResult<Option<FileId>>;

    fn meta(&self, ino: FileId) -> (r: VfsResult<FsMeta>)
        ensures
            self.may_meta(ino, r),
    ;

    fn read_at(&self, ino: FileId, stream: StreamId, off: u64, buf: &mut [u8]) -> VfsResult<usize>;

    /// Read a symlink target of at most `cap` bytes.
    fn read_link(&self, ino: FileId, cap: usize) -> VfsResult<Vec<u8>>;

    /// The data streams of a node; none by default.
    fn data_streams(&self, ino: FileId) -> (r: VfsResult<Vec<StreamInfo>>)
        default_ensures
            r matches Ok(v) && v@.len() == 0,
    {
        Ok(Vec::new())
    }

    /// Hard links to a node; none by default.
    fn hardlinks(&self, ino: FileId) -> (r: VfsResult<Vec<HardLink>>)
        default_ensures
            r matches Ok(v) && v@.len() == 0,
    {
        Ok(Vec::new())
    }

    /// Deleted and orphaned nodes, streamed.
    fn deleted(&self) -> VfsResult<NodeStream>;

    /// Deleted and orphaned nodes with their recovered identity; none by default, never
    /// a fabricated entry.
    fn deleted_nodes(&self) -> (r: VfsResult<DeletedStream>)
        default_ensures
            r matches Ok(s) && forall|items: Seq<VfsResult<DeletedNode>>, done: bool| #[trigger]
                s.may_yield(items, done) <==> items.len() == 0,
    {
        Ok(DeletedStream::empty())
    }

    /// Unallocated runs, streamed.
    fn unallocated(&self) -> VfsResult<ExtentStream>;

    /// File slack of a stream, if the filesystem exposes it; none by default.
    fn slack(&self, ino: FileId, stream: StreamId) -> (r: VfsResult<Option<ByteRun>>)
        default_ensures
            r matches Ok(v) && v is None,
    {
        Ok(None)
    }

    /// Findings raised while mounting or navigating; none by default.
    fn findings(&self) -> (r: VfsResult<Vec<forensicnomicon::report::Finding>>)
        default_ensures
            r matches Ok(v) && v@.len() == 0,
    {
        Ok(Vec::new())
    }
}

/// The shared filesystem handle.
pub struct DynFs {
    pub inner: Arc<Box<dyn FileSystem>>,
}

impl DynFs {
    /// Share a filesystem.
    pub fn new(fs: Box<dyn FileSystem>) -> (r: Self)
        ensures
            *r.inner == fs,
    {
        let inner = Arc::new(fs);
        DynFs { inner }
    }
}

impl Clone for DynFs {
    fn clone(&self) -> (r: Self)
        ensures
            r == *self,
    {
        DynFs { inner: Arc::clone(&self.inner) }
    }
}

impl core::ops::Deref for DynFs {
    type Target = Box<dyn FileSystem>;

    /// The shared filesystem.
    fn deref(&self) -> (r: &Box<dyn FileSystem>)
        ensures
            *r == *self.inner,
    {
        &*self.inner
    }
}

} // verus!

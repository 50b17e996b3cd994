//! Read-only forensic virtual filesystem: the layered contracts, the locator and
//! its text form, the partition tables, the layer resolver and the walk of a mounted
//! filesystem.
//!
//! - An [`ImageSource`] is a positioned-read byte source without a write method, shared
//!   by every worker through a [`DynSource`].
//! - The reads of a [`FileSystem`] take `&self`, so one mounted handle serves many
//!   workers; bulk enumerations are owned streams.
//! - The identity of a [`PathSpec`] is the chain of its layers, with a lossless
//!   canonical text and a lossy human one.
//!
//! Readers are the users' own: each contract states by a relation (`may_read`,
//! `may_probe` and the like) what an implementation may answer, and the functions of
//! this library state what they make of it, whatever the answers are. A relation holds
//! of every answer unless an implementation narrows it. What holds of
//! several functions together is stated by the public proof functions, most of them in
//! the modules whose names end in `laws`.

pub mod adapters;
pub mod archive;
pub mod crypto;
pub mod disk_laws;
pub mod display;
pub mod display_laws;
pub mod encryption;
pub mod engine;
pub mod engine_laws;
pub mod error;
pub mod fs;
pub mod grammar;
pub mod guess_laws;
pub mod lineage_laws;
pub mod message_laws;
pub mod order_laws;
pub mod partition;
pub mod partition_laws;
pub mod pathspec;
pub mod percent;
pub mod probe_laws;
pub mod read;
pub mod refusal_laws;
pub mod registry;
pub mod resolver;
pub mod resolver_laws;
pub mod snapshot;
pub mod source;
pub mod source_laws;
pub mod spelling_laws;
pub mod text;
pub mod text_laws;
pub mod tokens;
pub mod tour_laws;
pub mod uri;
pub mod uri_laws;
pub mod value_laws;
pub mod volume;
pub mod walk;
pub mod walk_laws;

pub use archive::{ArchiveContents, Member};
pub use crypto::{CryptoLayer, CryptoScheme};
pub use encryption::{
    Credential, CredentialSource, DynCredentials, EncryptionLayer, EncryptionScheme, NoCredentials,
};
pub use engine::{default_registry, Vfs};
pub use error::{SmallHex, VfsError, VfsResult};
pub use fs::{
    Allocation, ByteRun, DeletedNode, DeletedStream, DirEntry, DirStream, DynFs, ExtentStream,
    FileSystem, FsKind, FsMeta, HardLink, ItemSource, Listed, MacbTimes, NodeKind,
    NodeStream, ResidencyKind, RunAlloc, RunFlags, RunInfo, SectorSizes, StreamId, StreamInfo,
    StreamKind, TimeResolution, TimeSource, TimeStamp, TimeZonePolicy,
};
pub use forensicnomicon_core::FileId;
pub use pathspec::{Guid, Layer, NodeAddr, PathSpec, SnapshotRef};
pub use registry::{
    ArchiveOpen, Confidence, ContainerDecoder, ContainerFormat, CryptoProbe, EncryptionProbe,
    FileSystemProbe, Registry, SniffWindow, VolumeSystemProbe,
};
pub use resolver::{Evidence, Resolved, ResolvedSource, SourceOpen};
pub use snapshot::{epoch_from_create_time, snapshot_view, SnapshotView};
pub use source::{
    read_exact_at, read_exact_from, DynSource, Extent, Extents, ImageSource, SourceId, SourceView,
};
pub use volume::{VolumeDesc, VolumeKind, VolumeScheme, VolumeSystem};
pub use walk::{walk, walk_from_root, WalkEntry};

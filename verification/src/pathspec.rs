//! [`PathSpec`], the recursive, self-describing locator.
//!
//! A chain of [`Layer`] nodes, each naming one layer and its location within its
//! parent. It is an address, not a keychain: it carries no credentials. Its model is
//! the sequence of its layers, root first.

use forensicnomicon_core::FileId;
use vstd::prelude::*;

use crate::crypto::CryptoScheme;
use crate::encryption::EncryptionScheme;
use crate::fs::{FsKind, StreamId};
use crate::registry::ContainerFormat;
use crate::text::bytes_to_vec;
use crate::volume::VolumeScheme;

verus! {

broadcast use vstd::seq::group_seq_axioms;

/// A 16-byte GUID (partition type or id, volume identifier).
#[derive(Debug, Clone, Copy, PartialEq, Eq, Hash)]
pub struct Guid(pub [u8; 16]);

/// A reference to one snapshot within a snapshot set.
#[derive(Debug, Clone, Copy, PartialEq, Eq, Hash, Structural)]
#[non_exhaustive]
pub enum SnapshotRef {
    /// VSS store index.
    VssStore(usize),
    /// APFS snapshot transaction id.
    ApfsXid(u64),
}

/// How a node is addressed within a filesystem.
#[derive(Debug, PartialEq, Eq, Hash)]
#[non_exhaustive]
pub enum NodeAddr {
    /// Raw path components; filesystem names are bytes, not guaranteed UTF-8.
    Path(Vec<Vec<u8>>),
    /// The filesystem-specific stable id.
    File(FileId),
    /// Both: resolve by id, keep the observed path for context.
    Both { path: Vec<Vec<u8>>, id: FileId },
}

/// One layer of the locator chain.
#[derive(Debug, PartialEq, Eq, Hash)]
#[allow(inconsistent_fields)]
#[non_exhaustive]
pub enum Layer {
    /// The base OS path, as raw bytes.
    Os { path: Vec<u8> },
    /// A byte window of the parent.
    Range { start: u64, len: u64 },
    /// A decoded container.
    Container { format: ContainerFormat },
    /// A volume within a volume system.
    Volume { scheme: VolumeScheme, index: usize, guid: Option<Guid> },
    /// A volume-encryption translation, named by a [`CryptoScheme`].
    Crypto { scheme: CryptoScheme },
    /// A full-disk-encryption translation; the credentials are supplied apart.
    Encryption { scheme: EncryptionScheme },
    /// A peeled archive or compression wrapper; `member` is absent for a bare stream.
    Archive { member: Option<usize> },
    /// A snapshot or shadow store.
    Snapshot { store: SnapshotRef },
    /// A mounted filesystem, addressing one node.
    Fs { kind: FsKind, at: NodeAddr },
    /// A named data stream of the addressed node.
    Stream { id: StreamId },
}

/// The recursive locator, built with [`PathSpec::os`] and [`PathSpec::push`].
#[derive(Debug, PartialEq, Eq, Hash)]
pub struct PathSpec {
    pub layer: Layer,
    pub parent: Option<Box<PathSpec>>,
}

// ---------------------------------------------------------------------------
// Models
// ---------------------------------------------------------------------------

/// The model of a [`NodeAddr`].
#[verifier::ext_equal]
pub enum AddrModel {
    Path(Seq<Seq<u8>>),
    File(FileId),
    Both { path: Seq<Seq<u8>>, id: FileId },
}

/// The model of a [`Layer`].
#[verifier::ext_equal]
#[allow(inconsistent_fields)]
pub enum LayerModel {
    Os { path: Seq<u8> },
    Range { start: u64, len: u64 },
    Container { format: ContainerFormat },
    Volume { scheme: VolumeScheme, index: usize, guid: Option<Seq<u8>> },
    Crypto { scheme: CryptoScheme },
    Encryption { scheme: EncryptionScheme },
    Archive { member: Option<usize> },
    Snapshot { store: SnapshotRef },
    Fs { kind: FsKind, at: AddrModel },
    Stream { id: StreamId },
}

/// The contents of path components.
pub open spec fn components(v: Seq<Vec<u8>>) -> Seq<Seq<u8>> {
    Seq::new(v.len(), |i: int| v[i]@)
}

impl View for Guid {
    type V = Seq<u8>;

    open spec fn view(&self) -> Seq<u8> {
        self.0@
    }
}

impl View for NodeAddr {
    type V = AddrModel;

    open spec fn view(&self) -> AddrModel {
        match self {
            NodeAddr::Path(cs) => AddrModel::Path(components(cs@)),
            NodeAddr::File(id) => AddrModel::File(*id),
            NodeAddr::Both { path, id } => AddrModel::Both { path: components(path@), id: *id },
        }
    }
}

/// The bytes of an optional GUID.
pub open spec fn guid_bytes(guid: Option<Guid>) -> Option<Seq<u8>> {
    match guid {
        Some(g) => Some(g@),
        None => None,
    }
}

impl View for Layer {
    type V = LayerModel;

    open spec fn view(&self) -> LayerModel {
        match self {
            Layer::Os { path } => LayerModel::Os { path: path@ },
            Layer::Range { start, len } => LayerModel::Range { start: *start, len: *len },
            Layer::Container { format } => LayerModel::Container { format: *format },
            Layer::Volume { scheme, index, guid } => LayerModel::Volume {
                scheme: *scheme,
                index: *index,
                guid: guid_bytes(*guid),
            },
            Layer::Crypto { scheme } => LayerModel::Crypto { scheme: *scheme },
            Layer::Encryption { scheme } => LayerModel::Encryption { scheme: *scheme },
            Layer::Archive { member } => LayerModel::Archive { member: *member },
            Layer::Snapshot { store } => LayerModel::Snapshot { store: *store },
            Layer::Fs { kind, at } => LayerModel::Fs { kind: *kind, at: at@ },
            Layer::Stream { id } => LayerModel::Stream { id: *id },
        }
    }
}

impl PathSpec {
    /// The layers of the chain, root first.
    pub open spec fn chain(self) -> Seq<LayerModel>
        decreases self,
    {
        match self.parent {
            Some(p) => p.chain().push(self.layer@),
            None => seq![self.layer@],
        }
    }
}

impl View for PathSpec {
    type V = Seq<LayerModel>;

    open spec fn view(&self) -> Seq<LayerModel> {
        self.chain()
    }
}

// ---------------------------------------------------------------------------
// Copies
// ---------------------------------------------------------------------------

/// A copy of path components.
pub fn clone_components(v: &Vec<Vec<u8>>) -> (r: Vec<Vec<u8>>)
    ensures
        components(r@) == components(v@),
{
    let mut out: Vec<Vec<u8>> = Vec::new();
    let mut i: usize = 0;
    while i < v.len()
        invariant
            0 <= i <= v.len(),
            out@.len() == i,
            forall|k: int| 0 <= k < i ==> (#[trigger] out@[k])@ == v@[k]@,
        decreases v.len() - i,
    {
        out.push(bytes_to_vec(v[i].as_slice()));
        i = i + 1;
    }
    assert(components(out@) =~= components(v@));
    out
}

impl Clone for NodeAddr {
    fn clone(&self) -> (r: Self)
        ensures
            r@ == self@,
    {
        match self {
            NodeAddr::Path(cs) => NodeAddr::Path(clone_components(cs)),
            NodeAddr::File(id) => NodeAddr::File(*id),
            NodeAddr::Both { path, id } => NodeAddr::Both {
                path: clone_components(path),
                id: *id,
            },
        }
    }
}

impl Clone for Layer {
    fn clone(&self) -> (r: Self)
        ensures
            r@ == self@,
    {
        match self {
            Layer::Os { path } => Layer::Os { path: bytes_to_vec(path.as_slice()) },
            Layer::Range { start, len } => Layer::Range { start: *start, len: *len },
            Layer::Container { format } => Layer::Container { format: *format },
            Layer::Volume { scheme, index, guid } => Layer::Volume {
                scheme: *scheme,
                index: *index,
                guid: *guid,
            },
            Layer::Crypto { scheme } => Layer::Crypto { scheme: *scheme },
            Layer::Encryption { scheme } => Layer::Encryption { scheme: *scheme },
            Layer::Archive { member } => Layer::Archive { member: *member },
            Layer::Snapshot { store } => Layer::Snapshot { store: *store },
            Layer::Fs { kind, at } => Layer::Fs { kind: *kind, at: at.clone() },
            Layer::Stream { id } => Layer::Stream { id: *id },
        }
    }
}

impl Clone for PathSpec {
    fn clone(&self) -> (r: Self)
        ensures
            r@ == self@,
        decreases self,
    {
        let parent = match &self.parent {
            Some(p) => Some(Box::new((&**p).clone())),
            None => None,
        };
        PathSpec { layer: self.layer.clone(), parent }
    }
}

// ---------------------------------------------------------------------------
// Navigation
// ---------------------------------------------------------------------------

impl PathSpec {
    /// A base locator rooted at an OS path.
    pub fn os(path: Vec<u8>) -> (r: Self)
        ensures
            r@ == seq![LayerModel::Os { path: path@ }],
            r.parent is None,
    {
        PathSpec { layer: Layer::Os { path }, parent: None }
    }

    /// A base locator for any layer.
    pub fn root(layer: Layer) -> (r: Self)
        ensures
            r@ == seq![layer@],
            r.layer == layer,
            r.parent is None,
    {
        PathSpec { layer, parent: None }
    }

    /// Extend the chain: `self` becomes the parent of a node carrying `layer`.
    pub fn push(self, layer: Layer) -> (r: Self)
        ensures
            r@ == self@.push(layer@),
            r.layer == layer,
            r.parent == Some(Box::new(self)),
    {
        PathSpec { layer, parent: Some(Box::new(self)) }
    }

    /// The number of layers in the chain; the root counts as one.
    pub fn depth(&self) -> (r: usize)
        requires
            self@.len() <= usize::MAX,
        ensures
            r == self@.len(),
        decreases self,
    {
        match &self.parent {
            Some(p) => p.depth() + 1,
            None => 1,
        }
    }

    /// The root (parentless) locator of this chain.
    pub fn base(&self) -> (r: &PathSpec)
        ensures
            r.parent is None,
            r@ == seq![self@[0]],
        decreases self,
    {
        proof {
            lemma_chain_nonempty(*self);
        }
        match &self.parent {
            Some(p) => {
                proof {
                    lemma_chain_nonempty(**p);
                }
                p.base()
            },
            None => self,
        }
    }

    /// The layers of the chain, root first.
    pub fn layers(&self) -> (r: Vec<&Layer>)
        ensures
            r@.len() == self@.len(),
            forall|i: int| 0 <= i < r@.len() ==> (#[trigger] r@[i])@ == self@[i],
        decreases self,
    {
        let mut out: Vec<&Layer> = match &self.parent {
            Some(p) => p.layers(),
            None => Vec::new(),
        };
        out.push(&self.layer);
        out
    }
}

/// A chain has at least one layer, and its last is the node's own.
pub proof fn lemma_chain_nonempty(p: PathSpec)
    ensures
        p@.len() >= 1,
        p@.last() == p.layer@,
{
}

} // verus!

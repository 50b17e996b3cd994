//! [`VolumeSystem`], a partitioning or volume scheme over one byte source.
//!
//! Partition tables and snapshot store sets are all volume systems: the volumes are
//! partitions or stores, and opening one gives a read-only source that a filesystem
//! mounts unchanged.

use vstd::prelude::*;

use crate::error::VfsResult;
use crate::source::DynSource;

verus! {

/// The partitioning or volume scheme.
#[derive(Debug, Clone, Copy, PartialEq, Eq, Hash, Structural)]
#[non_exhaustive]
pub enum VolumeScheme {
    Mbr,
    Gpt,
    Apm,
    Vss,
    ApfsContainer,
    Lvm,
}

/// What one volume is.
#[derive(Debug, Clone, Copy, PartialEq, Eq, Structural)]
#[non_exhaustive]
pub enum VolumeKind {
    Partition,
    ShadowStore,
    Snapshot,
    Unallocated,
}

/// One volume within a scheme, in the parent's address space.
#[derive(Debug, PartialEq, Eq)]
pub struct VolumeDesc {
    pub index: usize,
    pub kind: VolumeKind,
    pub start: u64,
    pub len: u64,
    /// GUID, type name or label hint.
    pub type_hint: Option<String>,
    pub label: Option<String>,
}

/// The contents of a [`VolumeDesc`].
pub struct VolumeModel {
    pub index: int,
    pub kind: VolumeKind,
    pub start: u64,
    pub len: u64,
    pub type_hint: Option<Seq<char>>,
    pub label: Option<Seq<char>>,
}

/// The characters of an optional text.
pub open spec fn optional_text(s: Option<String>) -> Option<Seq<char>> {
    match s {
        Some(t) => Some(t@),
        None => None,
    }
}

impl View for VolumeDesc {
    type V = VolumeModel;

    open spec fn view(&self) -> VolumeModel {
        VolumeModel {
            index: self.index as int,
            kind: self.kind,
            start: self.start,
            len: self.len,
            type_hint: optional_text(self.type_hint),
            label: optional_text(self.label),
        }
    }
}

/// The contents of a list of volumes.
pub open spec fn volume_models(v: Seq<VolumeDesc>) -> Seq<VolumeModel> {
    Seq::new(v.len(), |i: int| v[i]@)
}

impl Clone for VolumeDesc {
    fn clone(&self) -> (r: Self)
        ensures
            r == *self,
    {
        let type_hint = match &self.type_hint {
            Some(s) => Some(s.clone()),
            None => None,
        };
        let label = match &self.label {
            Some(s) => Some(s.clone()),
            None => None,
        };
        VolumeDesc {
            index: self.index,
            kind: self.kind,
            start: self.start,
            len: self.len,
            type_hint,
            label,
        }
    }
}

/// A partitioning or volume scheme over one source.
pub trait VolumeSystem: Send + Sync {
    /// `volumes` may answer `v`.
    open spec fn may_volumes(&self, v: Seq<VolumeDesc>) -> bool {
        true
    }

    /// `open_volume` of `index` may answer `r`.
    open spec fn may_open_volume(&self, index: usize, r: VfsResult<DynSource>) -> bool {
        true
    }

    fn scheme(&self) -> VolumeScheme;

    /// The volumes or stores that this scheme exposes.
    fn volumes(&self) -> (r: &[VolumeDesc])
        ensures
            self.may_volumes(r@),
    ;

    /// A read-only source for one volume.
    fn open_volume(&self, index: usize) -> (r: VfsResult<DynSource>)
        ensures
            self.may_open_volume(index, r),
    ;

    /// Findings raised while parsing the volume table; none by default.
    fn findings(&self) -> (r: VfsResult<Vec<forensicnomicon::report::Finding>>)
        default_ensures
            r matches Ok(v) && v@.len() == 0,
    {
        Ok(Vec::new())
    }
}

} // verus!

//! What peeling an archive or compression wrapper gives.

use vstd::prelude::*;

use crate::source::DynSource;

verus! {

/// What opening an archive produces.
#[non_exhaustive]
pub enum ArchiveContents {
    /// A bare compression wrapper: the single decoded stream.
    Stream(DynSource),
    /// A multi-member archive: its member table.
    Members(Vec<Member>),
}

/// One member of an archive: its raw name and its byte source.
pub struct Member {
    /// The raw (possibly non-UTF-8) name.
    pub name: Vec<u8>,
    /// The byte source, ready to be resolved in turn.
    pub source: DynSource,
}

} // verus!

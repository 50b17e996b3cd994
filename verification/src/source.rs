//! [`ImageSource`], the universal read-only byte edge that every layer speaks.
//!
//! A positioned read carries no cursor, so one source is shared by `&self`. There is
//! no write method: evidence is read-only by construction.
//!
//! What an implementation answers may rest on a disk or a network, so its answers
//! are described by relations: [`ImageSource::may_len`] and
//! [`ImageSource::may_read`] hold of the answers that it may give. Everything built
//! on a source says exactly what it makes of any answer.

use std::sync::Arc;

use vstd::prelude::*;
use vstd::slice::slice_subrange;

use crate::error::{VfsError, VfsResult};

verus! {

broadcast use vstd::seq::group_seq_axioms;

/// Stable identity of a source, for cache keying and lineage.
#[derive(Debug, Clone, Copy, PartialEq, Eq, Hash, Structural)]
pub struct SourceId(u64);

impl View for SourceId {
    type V = u64;

    closed spec fn view(&self) -> u64 {
        self.0
    }
}

impl SourceId {
    /// The base source of a lineage when none has been assigned.
    pub fn root() -> (r: Self)
        ensures
            r@ == 0,
    {
        SourceId(0)
    }

    /// Wrap a raw id.
    pub fn new(id: u64) -> (r: Self)
        ensures
            r@ == id,
    {
        SourceId(id)
    }

    /// The raw id.
    pub fn get(self) -> (r: u64)
        ensures
            r == self@,
    {
        self.0
    }
}

impl Default for SourceId {
    fn default() -> (r: Self)
        ensures
            r@ == 0,
    {
        SourceId(0)
    }
}

/// A borrowed, contiguous view into a source that owns whatever keeps it alive.
pub enum SourceView<'a> {
    /// A borrow of a memory-mapped region.
    Mmap(&'a [u8]),
    /// A shared cache block and the valid range within it.
    Block(Arc<[u8]>, core::ops::Range<usize>),
}

impl<'a> SourceView<'a> {
    /// The bytes in view; a range outside the block shows none.
    pub open spec fn bytes(&self) -> Seq<u8> {
        match self {
            SourceView::Mmap(s) => s@,
            SourceView::Block(block, r) => if r.start <= r.end && r.end <= block@.len() {
                block@.subrange(r.start as int, r.end as int)
            } else {
                Seq::empty()
            },
        }
    }
}

impl<'a> core::ops::Deref for SourceView<'a> {
    type Target = [u8];

    fn deref(&self) -> (r: &[u8])
        ensures
            r@ == self.bytes(),
    {
        match self {
            SourceView::Mmap(s) => s,
            SourceView::Block(block, r) => {
                if r.start <= r.end && r.end <= block.len() {
                    slice_subrange(&**block, r.start, r.end)
                } else {
                    &[]
                }
            },
        }
    }
}

/// One allocated extent `[offset, offset + len)`.
#[derive(Debug, Clone, Copy, PartialEq, Eq, Structural)]
pub struct Extent {
    pub offset: u64,
    pub len: u64,
}

/// The allocated-extent map of a source.
#[derive(Debug, PartialEq, Eq)]
pub struct Extents {
    runs: Vec<Extent>,
}

impl View for Extents {
    type V = Seq<Extent>;

    closed spec fn view(&self) -> Seq<Extent> {
        self.runs@
    }
}

/// One extent that covers `[0, len)`, or none for an empty stream.
pub open spec fn dense_runs(len: u64) -> Seq<Extent> {
    if len == 0 {
        Seq::empty()
    } else {
        seq![Extent { offset: 0, len }]
    }
}

/// The sum of the lengths of the runs.
pub open spec fn total_len(runs: Seq<Extent>) -> nat
    decreases runs.len(),
{
    if runs.len() == 0 {
        0
    } else {
        total_len(runs.drop_last()) + runs.last().len as nat
    }
}

impl Extents {
    /// One extent covering `[0, len)`: everything is allocated.
    pub fn dense(len: u64) -> (r: Self)
        ensures
            r@ == dense_runs(len),
    {
        let mut runs: Vec<Extent> = Vec::new();
        if len != 0 {
            runs.push(Extent { offset: 0, len });
        }
        assert(runs@ =~= dense_runs(len));
        Extents { runs }
    }

    /// Build from explicit runs.
    pub fn from_runs(runs: Vec<Extent>) -> (r: Self)
        ensures
            r@ == runs@,
    {
        Extents { runs }
    }

    /// The runs, in the order supplied.
    pub fn runs(&self) -> (r: &[Extent])
        ensures
            r@ == self@,
    {
        self.runs.as_slice()
    }

    /// Total allocated bytes over all runs, at most `u64::MAX`.
    pub fn allocated_len(&self) -> (r: u64)
        ensures
            r == if total_len(self@) <= u64::MAX {
                total_len(self@)
            } else {
                u64::MAX as nat
            },
    {
        let mut sum: u64 = 0;
        let mut i: usize = 0;
        while i < self.runs.len()
            invariant
                0 <= i <= self.runs.len(),
                sum == if total_len(self.runs@.take(i as int)) <= u64::MAX {
                    total_len(self.runs@.take(i as int))
                } else {
                    u64::MAX as nat
                },
            decreases self.runs.len() - i,
        {
            sum = sum.saturating_add(self.runs[i].len);
            i = i + 1;
            assert(self.runs@.take(i as int).drop_last() =~= self.runs@.take(i - 1));
        }
        assert(self.runs@.take(self.runs.len() as int) =~= self.runs@);
        sum
    }

    /// True when there are no allocated runs.
    pub fn is_empty(&self) -> (r: bool)
        ensures
            r == (self@.len() == 0),
    {
        self.runs.len() == 0
    }
}

impl Default for Extents {
    fn default() -> (r: Self)
        ensures
            r@ == Seq::<Extent>::empty(),
    {
        Extents { runs: Vec::new() }
    }
}

impl Clone for Extents {
    fn clone(&self) -> (r: Self)
        ensures
            r@ == self@,
    {
        let mut runs: Vec<Extent> = Vec::new();
        let mut i: usize = 0;
        while i < self.runs.len()
            invariant
                0 <= i <= self.runs.len(),
                runs@ == self.runs@.take(i as int),
            decreases self.runs.len() - i,
        {
            runs.push(self.runs[i]);
            i = i + 1;
            assert(runs@ =~= self.runs@.take(i as int));
        }
        assert(self.runs@.take(self.runs.len() as int) =~= self.runs@);
        Extents { runs }
    }
}

/// A read-only, randomly addressable byte stream: a decoded container, a partition
/// window, a decrypted volume, a file's data, or a byte range of any of them.
pub trait ImageSource: Send + Sync {
    /// `len` may answer `n`.
    open spec fn may_len(&self, n: u64) -> bool {
        true
    }

    /// `read_at` may answer `r` and leave the buffer `before` as `after`.
    open spec fn may_read(
        &self,
        offset: u64,
        before: Seq<u8>,
        after: Seq<u8>,
        r: VfsResult<usize>,
    ) -> bool {
        true
    }

    /// Logical size in bytes of this stream.
    fn len(&self) -> (n: u64)
        ensures
            self.may_len(n),
    ;

    /// True when the stream is zero-length.
    fn is_empty(&self) -> (r: bool)
        default_ensures
            exists|n: u64| #[trigger] self.may_len(n) && r == (n == 0),
    {
        self.len() == 0
    }

    /// Fill `buf` from byte `offset` on. Gives the number of bytes read, 0 at or after
    /// the end; a read past the end gives the length of the available prefix.
    fn read_at(&self, offset: u64, buf: &mut [u8]) -> (r: VfsResult<usize>)
        ensures
            self.may_read(offset, old(buf)@, final(buf)@, r),
            final(buf)@.len() == old(buf)@.len(),
    ;

    /// The allocated-extent map: by default one dense extent.
    fn extents(&self) -> (r: Extents)
        default_ensures
            exists|n: u64| #[trigger] self.may_len(n) && r@ == dense_runs(n),
    {
        Extents::dense(self.len())
    }

    /// Optional zero-copy path; absent by default.
    fn view(&self, offset: u64, len: usize) -> (r: Option<SourceView<'_>>)
        default_ensures
            r is None,
    {
        None
    }

    /// Stable identity for cache keying and lineage.
    fn source_id(&self) -> (r: SourceId)
        default_ensures
            r@ == 0,
    {
        SourceId::root()
    }
}

/// `source_id` of `s` may answer `id`.
pub open spec fn identified_as<S: ImageSource + ?Sized>(s: &S, id: SourceId) -> bool {
    call_ensures(S::source_id, (s,), id)
}

/// The shared handle used at every composition seam: one parent backs many children.
pub struct DynSource {
    pub inner: Arc<Box<dyn ImageSource>>,
}

impl DynSource {
    /// Share a source.
    pub fn new(source: Box<dyn ImageSource>) -> (r: Self)
        ensures
            *r.inner == source,
    {
        let inner = Arc::new(source);
        DynSource { inner }
    }
}

impl Clone for DynSource {
    fn clone(&self) -> (r: Self)
        ensures
            r == *self,
    {
        DynSource { inner: Arc::clone(&self.inner) }
    }
}

impl core::ops::Deref for DynSource {
    type Target = Box<dyn ImageSource>;

    /// The shared source.
    fn deref(&self) -> (r: &Box<dyn ImageSource>)
        ensures
            *r == *self.inner,
    {
        &*self.inner
    }
}

/// The error for a stream that is too short.
pub open spec fn is_short_read(e: VfsError, offset: u64, len: u64, bound: u64) -> bool {
    match e {
        VfsError::OutOfRange { what, offset: o, len: l, bound: b } => {
            what@ == "read_exact_at"@ && o == offset && l == len && b == bound
        },
        _ => false,
    }
}

/// What reading exactly `before.len()` bytes of `src` at `offset` may leave in the buffer
/// and give: all of the bytes, the error of the read, or the error for a stream that is
/// too short.
pub open spec fn may_read_exact<S: ImageSource + ?Sized>(
    src: &S,
    offset: u64,
    before: Seq<u8>,
    after: Seq<u8>,
    r: VfsResult<()>,
) -> bool {
    match r {
        Ok(_) => exists|n: usize|
            n == before.len() && #[trigger] src.may_read(offset, before, after, Ok(n)),
        Err(e) => {
            ||| src.may_read(offset, before, after, Err(e))
            ||| exists|n: usize, bound: u64|
                n != before.len() && #[trigger] src.may_read(offset, before, after, Ok(n))
                    && #[trigger] src.may_len(bound) && is_short_read(
                    e,
                    offset,
                    before.len() as u64,
                    bound,
                )
        },
    }
}

/// Read exactly `buf.len()` bytes at `offset`: all of them, or an error.
///
/// [`read_exact_from`] on a trait object.
pub fn read_exact_at(src: &dyn ImageSource, offset: u64, buf: &mut [u8]) -> (r: VfsResult<()>)
    ensures
        final(buf)@.len() == old(buf)@.len(),
        may_read_exact(src, offset, old(buf)@, final(buf)@, r),
{
    read_exact_from(src, offset, buf)
}

/// Read exactly `buf.len()` bytes of a source of any type at `offset`, as
/// [`read_exact_at`] does.
pub fn read_exact_from<S: ImageSource + ?Sized>(
    src: &S,
    offset: u64,
    buf: &mut [u8],
) -> (r: VfsResult<()>)
    ensures
        final(buf)@.len() == old(buf)@.len(),
        may_read_exact(src, offset, old(buf)@, final(buf)@, r),
{
    match src.read_at(offset, buf) {
        Err(e) => Err(e),
        Ok(got) => {
            if got == buf.len() {
                Ok(())
            } else {
                let bound: u64 = src.len();
                let e = VfsError::OutOfRange {
                    what: "read_exact_at",
                    offset,
                    len: buf.len() as u64,
                    bound,
                };
                assert(is_short_read(e, offset, buf@.len() as u64, bound));
                Err(e)
            }
        },
    }
}

} // verus!

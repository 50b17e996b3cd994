//! Concrete sources: a byte window of a parent, a cursor view for readers that seek,
//! and a pool of seeking readers.

use std::sync::{Mutex, MutexGuard};

use vstd::prelude::*;

use crate::error::{io_err, VfsError, VfsResult};
use crate::source::{identified_as, DynSource, ImageSource, SourceId};

verus! {

broadcast use vstd::seq::group_seq_axioms;

/// The length of a window of at most `len` bytes at `base` in a stream of
/// `parent_len` bytes.
pub open spec fn clamped(base: u64, len: u64, parent_len: u64) -> u64 {
    let available = if base <= parent_len {
        (parent_len - base) as u64
    } else {
        0
    };
    if len <= available {
        len
    } else {
        available
    }
}

/// A sum, at most `u64::MAX`.
pub open spec fn capped_sum(a: u64, b: u64) -> u64 {
    if a + b <= u64::MAX {
        (a + b) as u64
    } else {
        u64::MAX
    }
}

/// How many bytes a read of `n` bytes at `offset` of a `len`-byte window asks for.
pub open spec fn wanted(n: nat, offset: u64, len: u64) -> int {
    if n <= len - offset {
        n as int
    } else {
        len - offset
    }
}

/// A read of a window: at or past its end nothing is read; before it the parent is
/// asked for the bytes that remain in the window, and the rest of the buffer stays.
pub open spec fn window_read(
    parent: DynSource,
    base: u64,
    len: u64,
    offset: u64,
    before: Seq<u8>,
    after: Seq<u8>,
    r: VfsResult<usize>,
) -> bool {
    if offset >= len {
        r == Ok::<usize, VfsError>(0) && after == before
    } else {
        let want = wanted(before.len(), offset, len);
        exists|filled: Seq<u8>|
            #![trigger parent.inner.may_read(capped_sum(base, offset), before.take(want), filled, r)]
            {
                &&& parent.inner.may_read(
                    capped_sum(base, offset),
                    before.take(want),
                    filled,
                    r,
                )
                &&& filled.len() == want
                &&& after == filled + before.skip(want)
            }
    }
}

/// A byte window `[base, base + len)` of a parent source, itself an [`ImageSource`]:
/// how a partition, a store, an embedded image or a decrypted volume is addressed.
/// `len` is clamped to the parent's bounds at construction, so a read can never
/// escape the window.
pub struct SubRange {
    parent: DynSource,
    base: u64,
    len: u64,
}

impl SubRange {
    /// The source that the window lies in.
    pub closed spec fn parent(&self) -> DynSource {
        self.parent
    }

    /// Where the window begins.
    pub closed spec fn base(&self) -> u64 {
        self.base
    }

    /// The length of the window.
    pub closed spec fn window_len(&self) -> u64 {
        self.len
    }

    /// A window starting at `base` in `parent`, at most `len` bytes, clamped to what
    /// the parent has from `base` on.
    pub fn new(parent: DynSource, base: u64, len: u64) -> (r: Self)
        ensures
            r.parent() == parent,
            r.base() == base,
            exists|n: u64| #[trigger]
                parent.inner.may_len(n) && r.window_len() == clamped(base, len, n),
    {
        let n: u64 = parent.inner.len();
        let available: u64 = n.saturating_sub(base);
        let len: u64 = if len <= available {
            len
        } else {
            available
        };
        SubRange { parent, base, len }
    }
}

impl ImageSource for SubRange {
    open spec fn may_len(&self, n: u64) -> bool {
        n == self.window_len()
    }

    open spec fn may_read(
        &self,
        offset: u64,
        before: Seq<u8>,
        after: Seq<u8>,
        r: VfsResult<usize>,
    ) -> bool {
        window_read(self.parent(), self.base(), self.window_len(), offset, before, after, r)
    }

    fn len(&self) -> (n: u64) {
        self.len
    }

    fn read_at(&self, offset: u64, buf: &mut [u8]) -> (r: VfsResult<usize>) {
        if offset >= self.len {
            return Ok(0);
        }
        read_window(&self.parent, self.base, self.len, offset, buf)
    }

    /// The identity of the parent, whose lineage a window inherits.
    fn source_id(&self) -> (r: SourceId)
        ensures
            identified_as(&**self.parent().inner, r),
    {
        self.parent.inner.source_id()
    }
}

fn read_window(parent: &DynSource, base: u64, len: u64, offset: u64, buf: &mut [u8]) -> (r:
    VfsResult<usize>)
    requires
        offset < len,
    ensures
        window_read(*parent, base, len, offset, old(buf)@, final(buf)@, r),
        final(buf)@.len() == old(buf)@.len(),
{
    let ghost before = buf@;
    let remaining: u64 = len - offset;
    let want: usize = if buf.len() as u64 <= remaining {
        buf.len()
    } else {
        remaining as usize
    };
    let abs: u64 = base.saturating_add(offset);
    let (dst, _rest) = buf.split_at_mut(want);
    let r = parent.inner.read_at(abs, dst);
    proof {
        let after = buf@;
        let filled = after.take(want as int);
        assert(before.take(want as int) =~= before.subrange(0, want as int));
        assert(filled =~= dst@);
        assert(abs == capped_sum(base, offset));
        assert(want == wanted(before.len(), offset, len));
        assert(parent.inner.may_read(
            capped_sum(base, offset),
            before.take(wanted(before.len(), offset, len)),
            filled,
            r,
        ));
        assert(after =~= filled + before.skip(want as int));
    }
    r
}

/// `d` answers as the window `s` does.
pub open spec fn shares(d: DynSource, s: SubRange) -> bool {
    &&& forall|n: u64| #[trigger] d.inner.may_len(n) <==> s.may_len(n)
    &&& forall|offset: u64, before: Seq<u8>, after: Seq<u8>, r: VfsResult<usize>| #[trigger]
        d.inner.may_read(offset, before, after, r) <==> s.may_read(offset, before, after, r)
}

impl SubRange {
    /// The window as a shared source.
    pub fn into_source(self) -> (d: DynSource)
        ensures
            shares(d, self),
    {
        DynSource { inner: std::sync::Arc::new(Box::new(self)) }
    }
}

/// A read of a window leaves alone every byte of the buffer that would lie past the
/// window's end, and at or past the end it reads nothing.
pub proof fn a_read_never_escapes_the_window(
    s: SubRange,
    offset: u64,
    before: Seq<u8>,
    after: Seq<u8>,
    r: VfsResult<usize>,
)
    requires
        s.may_read(offset, before, after, r),
    ensures
        after.len() == before.len(),
        forall|i: int|
            0 <= i < before.len() && offset + i >= s.window_len() ==> #[trigger] after[i]
                == before[i],
        offset >= s.window_len() ==> r == Ok::<usize, VfsError>(0) && after == before,
{
    if offset < s.window_len() {
        let want = wanted(before.len(), offset, s.window_len());
        let filled = choose|filled: Seq<u8>|
            {
                &&& #[trigger] s.parent().inner.may_read(
                    capped_sum(s.base(), offset),
                    before.take(want),
                    filled,
                    r,
                )
                &&& filled.len() == want
                &&& after == filled + before.skip(want)
            };
        assert(after == filled + before.skip(want));
    }
}

/// A window of a window is a window: reading `inner`, which lies in `outer`, is
/// reading the outer parent at the sum of the two offsets.
pub proof fn windows_nest(
    outer: SubRange,
    inner: SubRange,
    offset: u64,
    before: Seq<u8>,
    after: Seq<u8>,
    r: VfsResult<usize>,
)
    requires
        shares(inner.parent(), outer),
        inner.base() + inner.window_len() <= outer.window_len(),
        outer.base() + outer.window_len() <= u64::MAX,
    ensures
        inner.may_read(offset, before, after, r) <==> window_read(
            outer.parent(),
            (outer.base() + inner.base()) as u64,
            inner.window_len(),
            offset,
            before,
            after,
            r,
        ),
{
    let base = (outer.base() + inner.base()) as u64;
    let len = inner.window_len();
    if offset < len {
        let want = wanted(before.len(), offset, len);
        let at = capped_sum(inner.base(), offset);
        let asked = before.take(want);
        assert(wanted(asked.len(), at, outer.window_len()) == want);
        assert(asked.take(want) =~= asked);
        assert(capped_sum(outer.base(), at) == capped_sum(base, offset));
        if inner.may_read(offset, before, after, r) {
            let filled = choose|filled: Seq<u8>|
                {
                    &&& #[trigger] inner.parent().inner.may_read(at, asked, filled, r)
                    &&& filled.len() == want
                    &&& after == filled + before.skip(want)
                };
            assert(outer.may_read(at, asked, filled, r));
            let deep = choose|deep: Seq<u8>|
                {
                    &&& #[trigger] outer.parent().inner.may_read(
                        capped_sum(outer.base(), at),
                        asked.take(want),
                        deep,
                        r,
                    )
                    &&& deep.len() == want
                    &&& filled == deep + asked.skip(want)
                };
            assert(asked.skip(want) =~= Seq::<u8>::empty());
            assert(filled =~= deep);
            assert(outer.parent().inner.may_read(capped_sum(base, offset), asked, filled, r));
        }
        if window_read(outer.parent(), base, len, offset, before, after, r) {
            let filled = choose|filled: Seq<u8>|
                {
                    &&& #[trigger] outer.parent().inner.may_read(
                        capped_sum(base, offset),
                        asked,
                        filled,
                        r,
                    )
                    &&& filled.len() == want
                    &&& after == filled + before.skip(want)
                };
            assert(filled + asked.skip(want) =~= filled);
            assert(outer.parent().inner.may_read(
                capped_sum(outer.base(), at),
                asked.take(want),
                filled,
                r,
            ));
            assert(outer.may_read(at, asked, filled, r));
            assert(inner.parent().inner.may_read(at, asked, filled, r));
        }
    }
}

// ---------------------------------------------------------------------------
// A cursor over a source
// ---------------------------------------------------------------------------

/// A position to move a cursor to.
#[derive(Debug, Clone, Copy, PartialEq, Eq, Structural)]
pub enum SeekFrom {
    /// From the start of the window.
    Start(u64),
    /// From the end of the window.
    End(i64),
    /// From the current position.
    Current(i64),
}

/// A position before the start of the window was asked for.
#[derive(Debug, Clone, Copy, PartialEq, Eq, Structural)]
pub struct SeekBeforeStart;

/// A single-owner view with a cursor over a [`DynSource`], for readers that seek and
/// read. Clamped to `[base, base + len)`.
pub struct SourceCursor {
    src: DynSource,
    base: u64,
    len: u64,
    pos: u64,
}

impl SourceCursor {
    /// The source that the window lies in.
    pub closed spec fn source(&self) -> DynSource {
        self.src
    }

    /// Where the window begins.
    pub closed spec fn base(&self) -> u64 {
        self.base
    }

    /// The length of the window.
    pub closed spec fn window_len(&self) -> u64 {
        self.len
    }

    /// The cursor's position in the window.
    pub closed spec fn pos(&self) -> u64 {
        self.pos
    }

    /// The two cursors see the same window.
    pub open spec fn same_window(&self, other: &SourceCursor) -> bool {
        &&& self.source() == other.source()
        &&& self.base() == other.base()
        &&& self.window_len() == other.window_len()
    }

    /// Where `to` leads, counted from the start of the window.
    pub open spec fn target(&self, to: SeekFrom) -> int {
        match to {
            SeekFrom::Start(o) => o as int,
            SeekFrom::End(o) => self.window_len() + o,
            SeekFrom::Current(o) => self.pos() + o,
        }
    }

    /// A cursor over the window `[base, base + len)` of `src`, clamped to the source's
    /// bounds, positioned at the start.
    pub fn new(src: DynSource, base: u64, len: u64) -> (r: Self)
        ensures
            r.source() == src,
            r.base() == base,
            r.pos() == 0,
            exists|n: u64| #[trigger]
                src.inner.may_len(n) && r.window_len() == clamped(base, len, n),
    {
        let n: u64 = src.inner.len();
        let available: u64 = n.saturating_sub(base);
        let len: u64 = if len <= available {
            len
        } else {
            available
        };
        SourceCursor { src, base, len, pos: 0 }
    }

    /// Read at the cursor and move it on by what was read; at or past the window's end
    /// nothing is read.
    pub fn read(&mut self, buf: &mut [u8]) -> (r: VfsResult<usize>)
        ensures
            final(buf)@.len() == old(buf)@.len(),
            window_read(
                old(self).source(),
                old(self).base(),
                old(self).window_len(),
                old(self).pos(),
                old(buf)@,
                final(buf)@,
                r,
            ),
            final(self).same_window(old(self)),
            final(self).pos() == match r {
                Ok(n) => capped_sum(old(self).pos(), n as u64),
                Err(_) => old(self).pos(),
            },
    {
        if self.pos >= self.len {
            return Ok(0);
        }
        let r = read_window(&self.src, self.base, self.len, self.pos, buf);
        match r {
            Ok(n) => {
                self.pos = self.pos.saturating_add(n as u64);
                Ok(n)
            },
            Err(e) => Err(e),
        }
    }

    /// Move the cursor. A position before the start of the window is refused and
    /// leaves the cursor alone; one past `u64::MAX` is brought down to it.
    pub fn seek(&mut self, to: SeekFrom) -> (r: Result<u64, SeekBeforeStart>)
        ensures
            final(self).same_window(old(self)),
            r is Err <==> old(self).target(to) < 0,
            match r {
                Ok(p) => {
                    &&& final(self).pos() == p
                    &&& p == if old(self).target(to) <= u64::MAX {
                        old(self).target(to)
                    } else {
                        u64::MAX as int
                    }
                },
                Err(_) => final(self).pos() == old(self).pos(),
            },
    {
        let target: i128 = match to {
            SeekFrom::Start(o) => o as i128,
            SeekFrom::End(o) => self.len as i128 + o as i128,
            SeekFrom::Current(o) => self.pos as i128 + o as i128,
        };
        if target < 0 {
            return Err(SeekBeforeStart);
        }
        self.pos = if target <= u64::MAX as i128 {
            target as u64
        } else {
            u64::MAX
        };
        Ok(self.pos)
    }
}

// ---------------------------------------------------------------------------
// A pool of seeking readers
// ---------------------------------------------------------------------------

/// `std::sync::Mutex`, opaque.
#[verifier::external_type_specification]
#[verifier::external_body]
#[verifier::reject_recursive_types(T)]
pub struct ExMutex<T: ?Sized>(std::sync::Mutex<T>);

/// `std::sync::MutexGuard`, opaque.
#[verifier::external_type_specification]
#[verifier::external_body]
#[verifier::reject_recursive_types(T)]
pub struct ExMutexGuard<'a, T: ?Sized + 'a>(std::sync::MutexGuard<'a, T>);

/// A reader that seeks, as a container decoder hands one out. `before` and `after`
/// are the reader's states around a call.
pub trait SeekRead: Send + Sized {
    /// Seeking to `offset` may answer `r` and lead from this state to `after`.
    open spec fn may_seek(self, offset: u64, after: Self, r: Result<u64, std::io::Error>) -> bool {
        true
    }

    /// Reading may answer `r`, turn `before` into `filled` and lead from this state to
    /// `after`.
    open spec fn may_fill(
        self,
        before: Seq<u8>,
        filled: Seq<u8>,
        after: Self,
        r: Result<usize, std::io::Error>,
    ) -> bool {
        true
    }

    /// Move to `offset` from the start.
    fn seek_to(&mut self, offset: u64) -> (r: Result<u64, std::io::Error>)
        ensures
            old(self).may_seek(offset, *final(self), r),
    ;

    /// Read some bytes into `buf`: at most its length, 0 at the end of the stream.
    fn read_some(&mut self, buf: &mut [u8]) -> (r: Result<usize, std::io::Error>)
        ensures
            old(self).may_fill(old(buf)@, final(buf)@, *final(self), r),
            final(buf)@.len() == old(buf)@.len(),
            r matches Ok(n) ==> n <= old(buf)@.len(),
    ;
}

/// `std::sync::Mutex::new`: nothing is said of the lock.
#[verifier::external_body]
fn guarded<R>(reader: R) -> (r: Mutex<R>) {
    Mutex::new(reader)
}

/// `std::sync::Mutex::try_lock`: a guard when the lock is free. Whether it is, and
/// what the reader's state then is, rests on the other users of the pool.
#[verifier::external_body]
fn try_lock<'a, R>(m: &'a Mutex<R>) -> (r: Option<MutexGuard<'a, R>>) {
    m.try_lock().ok()
}

/// `std::sync::Mutex::lock`: waits for the lock, and takes a poisoned one too. What
/// the reader's state then is rests on the other users of the pool.
#[verifier::external_body]
fn lock<'a, R>(m: &'a Mutex<R>) -> (r: MutexGuard<'a, R>) {
    m.lock().unwrap_or_else(std::sync::PoisonError::into_inner)
}

/// `std::ops::DerefMut::deref_mut` of a guard: the reader that it guards, in whatever
/// state it was left.
#[verifier::external_body]
fn reader_of<'a, 'b, R>(guard: &'a mut MutexGuard<'b, R>) -> (r: &'a mut R) {
    &mut *guard
}

/// Filling a buffer from `total` bytes on: read until it is full, the stream ends or a
/// read fails. `before` is the buffer as it is, `after` as it ends up.
pub open spec fn fills<R: SeekRead>(
    reader: R,
    total: int,
    before: Seq<u8>,
    after: Seq<u8>,
    r: VfsResult<usize>,
) -> bool
    decreases before.len() - total,
{
    if total < 0 || total >= before.len() {
        after == before && r == Ok::<usize, VfsError>(total as usize)
    } else {
        exists|slot: Seq<u8>, next: R, got: Result<usize, std::io::Error>|
            {
                &&& #[trigger] reader.may_fill(before.skip(total), slot, next, got)
                &&& slot.len() == before.len() - total
                &&& got matches Ok(n) ==> n <= slot.len()
                &&& {
                    let filled = before.take(total) + slot;
                    match got {
                        Err(source) => after == filled && r == Err::<usize, VfsError>(
                            VfsError::Io { op: "read", source },
                        ),
                        Ok(n) => if n == 0 {
                            after == filled && r == Ok::<usize, VfsError>(total as usize)
                        } else {
                            fills(next, total + n, filled, after, r)
                        },
                    }
                }
            }
    }
}

/// A pooled read that found a reader: it seeks, then fills the window's share of the
/// buffer.
pub open spec fn pooled_read<R: SeekRead>(
    reader: R,
    len: u64,
    offset: u64,
    before: Seq<u8>,
    after: Seq<u8>,
    r: VfsResult<usize>,
) -> bool {
    exists|next: R, got: Result<u64, std::io::Error>|
        {
            &&& #[trigger] reader.may_seek(offset, next, got)
            &&& match got {
                Err(source) => after == before && r == Err::<usize, VfsError>(
                    VfsError::Io { op: "seek", source },
                ),
                Ok(_) => {
                    let want = wanted(before.len(), offset, len);
                    after.len() == before.len() && after.skip(want) == before.skip(want) && fills(
                        next,
                        0,
                        before.take(want),
                        after.take(want),
                        r,
                    )
                },
            }
        }
}

/// Seeking readers over one stream as an [`ImageSource`]. A read takes a free reader
/// from the pool, or waits for the first, so parallel reads scale up to the size of
/// the pool.
#[verifier::reject_recursive_types(R)]
pub struct SeekPoolSource<R: SeekRead> {
    pool: Vec<Mutex<R>>,
    len: u64,
}

impl<R: SeekRead> SeekPoolSource<R> {
    /// The number of readers.
    pub closed spec fn size(&self) -> nat {
        self.pool@.len()
    }

    /// The length of the stream.
    pub closed spec fn stream_len(&self) -> u64 {
        self.len
    }

    /// A pool of independent readers over the same `len`-byte stream.
    pub fn new(readers: Vec<R>, len: u64) -> (r: Self)
        ensures
            r.size() == readers@.len(),
            r.stream_len() == len,
    {
        let mut pool: Vec<Mutex<R>> = Vec::new();
        let ghost n = readers@.len();
        for reader in it: readers
            invariant
                it.seq().len() == n,
                pool@.len() == it.index(),
        {
            pool.push(guarded(reader));
        }
        SeekPoolSource { pool, len }
    }

    /// A pool of one reader.
    pub fn single(reader: R, len: u64) -> (r: Self)
        ensures
            r.size() == 1,
            r.stream_len() == len,
    {
        let mut readers: Vec<R> = Vec::new();
        readers.push(reader);
        SeekPoolSource::new(readers, len)
    }

    /// A guard of some reader: the first whose lock is free, else the first when it
    /// becomes free; none in an empty pool.
    fn checkout<'a>(&'a self) -> (r: Option<MutexGuard<'a, R>>)
        ensures
            r is None <==> self.size() == 0,
    {
        let mut i: usize = 0;
        while i < self.pool.len()
            invariant
                0 <= i <= self.pool.len(),
            decreases self.pool.len() - i,
        {
            match try_lock(&self.pool[i]) {
                Some(guard) => {
                    return Some(guard);
                },
                None => {},
            }
            i = i + 1;
        }
        if self.pool.len() == 0 {
            None
        } else {
            Some(lock(&self.pool[0]))
        }
    }
}

impl<R: SeekRead> ImageSource for SeekPoolSource<R> {
    open spec fn may_len(&self, n: u64) -> bool {
        n == self.stream_len()
    }

    open spec fn may_read(
        &self,
        offset: u64,
        before: Seq<u8>,
        after: Seq<u8>,
        r: VfsResult<usize>,
    ) -> bool {
        if offset >= self.stream_len() || self.size() == 0 {
            r == Ok::<usize, VfsError>(0) && after == before
        } else {
            exists|reader: R| #[trigger]
                pooled_read(reader, self.stream_len(), offset, before, after, r)
        }
    }

    fn len(&self) -> (n: u64) {
        self.len
    }

    fn read_at(&self, offset: u64, buf: &mut [u8]) -> (r: VfsResult<usize>) {
        if offset >= self.len {
            return Ok(0);
        }
        match self.checkout() {
            None => Ok(0),
            Some(guard) => {
                let mut guard = guard;
                read_pooled(reader_of(&mut guard), self.len, offset, buf)
            },
        }
    }
}

/// A pooled read, once a reader is at hand.
pub fn read_pooled<R: SeekRead>(
    reader: &mut R,
    len: u64,
    offset: u64,
    buf: &mut [u8],
) -> (r: VfsResult<usize>)
    requires
        offset < len,
    ensures
        pooled_read(*old(reader), len, offset, old(buf)@, final(buf)@, r),
        final(buf)@.len() == old(buf)@.len(),
{
    let ghost before = buf@;
    let sought = reader.seek_to(offset);
    match sought {
        Err(source) => Err(io_err("seek")(source)),
        Ok(_) => {
            let remaining: u64 = len - offset;
            let want: usize = if buf.len() as u64 <= remaining {
                buf.len()
            } else {
                remaining as usize
            };
            let ghost next = *reader;
            let (dst, _rest) = buf.split_at_mut(want);
            let r = fill(reader, dst);
            proof {
                let after = buf@;
                assert(before.take(want as int) =~= before.subrange(0, want as int));
                assert(after.take(want as int) =~= dst@);
                assert(after.skip(want as int) =~= before.skip(want as int));
                assert(want == wanted(before.len(), offset, len));
            }
            r
        },
    }
}

/// Read until the buffer is full, the stream ends or a read fails.
fn fill<R: SeekRead>(reader: &mut R, buf: &mut [u8]) -> (r: VfsResult<usize>)
    ensures
        fills(*old(reader), 0, old(buf)@, final(buf)@, r),
        final(buf)@.len() == old(buf)@.len(),
{
    let ghost origin = *reader;
    let ghost whole = buf@;
    let mut total: usize = 0;
    while total < buf.len()
        invariant
            total <= buf@.len(),
            buf@.len() == whole.len(),
            origin == *old(reader),
            whole == old(buf)@,
            forall|after: Seq<u8>, r: VfsResult<usize>| #[trigger]
                fills(*reader, total as int, buf@, after, r) ==> fills(origin, 0, whole, after, r),
        decreases buf@.len() - total,
    {
        let ghost before = buf@;
        let ghost start = *reader;
        let ghost from = total as int;
        let (_head, slot) = buf.split_at_mut(total);
        let got = reader.read_some(slot);
        let ghost filled = buf@;
        proof {
            assert(before.skip(from) =~= before.subrange(from, before.len() as int));
            assert(filled =~= before.take(from) + slot@);
            assert(start.may_fill(before.skip(from), slot@, *reader, got));
        }
        match got {
            Err(source) => {
                let e = io_err("read")(source);
                assert(fills(start, from, before, filled, Err(e)));
                return Err(e);
            },
            Ok(n) => {
                if n == 0 {
                    assert(fills(start, from, before, filled, Ok(total)));
                    return Ok(total);
                }
                total = total + n;
                proof {
                    assert forall|after: Seq<u8>, r: VfsResult<usize>| #[trigger]
                        fills(*reader, total as int, filled, after, r) implies fills(
                        origin,
                        0,
                        whole,
                        after,
                        r,
                    ) by {
                        assert(fills(start, from, before, after, r));
                    }
                }
            },
        }
    }
    assert(fills(*reader, total as int, buf@, buf@, Ok(total)));
    Ok(total)
}

} // verus!

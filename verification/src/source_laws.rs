//! What reads of the library's own sources give, said on the bytes that a stream holds.

use vstd::prelude::*;

use crate::adapters::{
    clamped, fills, pooled_read, wanted, SeekFrom, SeekPoolSource, SeekRead, SourceCursor,
};
use crate::disk_laws::{available, holds_bytes, part_of, reads_true};
use crate::error::{VfsError, VfsResult};
use crate::order_laws::may_show;
use crate::registry::WindowModel;
use crate::resolver::sniffs;
use crate::source::{may_read_exact, total_len, DynSource, Extent, Extents, ImageSource};

verus! {

broadcast use vstd::seq::group_seq_axioms;

// ---------------------------------------------------------------------------
// Exact reads
// ---------------------------------------------------------------------------

/// An exact read of a source that holds `b` gives all the bytes that were asked for, and
/// fails exactly where they run out, saying what was asked for and how long the source is.
pub proof fn an_exact_read_gives_all_or_fails(
    src: DynSource,
    b: Seq<u8>,
    offset: u64,
    before: Seq<u8>,
    after: Seq<u8>,
    r: VfsResult<()>,
)
    requires
        holds_bytes(src, b),
        before.len() == after.len() <= usize::MAX,
        may_read_exact(&**src.inner, offset, before, after, r),
    ensures
        r is Ok <==> offset + before.len() <= b.len() || before.len() == 0,
        r is Ok ==> forall|i: int|
            0 <= i < after.len() ==> #[trigger] after[i] == b[offset + i],
        r matches Err(e) ==> e matches VfsError::OutOfRange { offset: o, len, bound, .. } && o
            == offset && len == before.len() && bound == b.len(),
{
    let s = &**src.inner;
    match r {
        Ok(_) => {
            let n = choose|n: usize|
                n == before.len() && #[trigger] s.may_read(offset, before, after, Ok(n));
            assert(src.inner.may_read(offset, before, after, Ok(n)));
            assert(reads_true(b, offset, before, after, Ok(n)));
        },
        Err(e) => {
            if s.may_read(offset, before, after, Err(e)) {
                assert(src.inner.may_read(offset, before, after, Err(e)));
                assert(reads_true(b, offset, before, after, Err(e)));
            }
            let (n, bound) = choose|n: usize, bound: u64|
                n != before.len() && #[trigger] s.may_read(offset, before, after, Ok(n))
                    && #[trigger] s.may_len(bound) && crate::source::is_short_read(
                    e,
                    offset,
                    before.len() as u64,
                    bound,
                );
            assert(src.inner.may_read(offset, before, after, Ok(n)));
            assert(src.inner.may_len(bound));
            assert(reads_true(b, offset, before, after, Ok(n)));
        },
    }
}

// ---------------------------------------------------------------------------
// Sniffing
// ---------------------------------------------------------------------------

proof fn lemma_shown(source: DynSource, b: Seq<u8>, offset: int, n: int, got: Seq<u8>)
    requires
        holds_bytes(source, b),
        0 <= offset <= u64::MAX,
        0 <= n,
        may_show(source, offset, n, got),
    ensures
        got == b.subrange(
            if offset <= b.len() {
                offset
            } else {
                b.len() as int
            },
            if offset + n <= b.len() {
                offset + n
            } else {
                b.len() as int
            },
        ),
{
    let (blank, filled, count) = choose|blank: Seq<u8>, filled: Seq<u8>, count: usize|
        {
            &&& #[trigger] source.inner.may_read(offset as u64, blank, filled, Ok(count))
            &&& blank.len() == n
            &&& forall|i: int| 0 <= i < n ==> blank[i] == 0
            &&& filled.len() == n
            &&& got == if count <= n {
                filled.take(count as int)
            } else {
                Seq::empty()
            }
        };
    assert(reads_true(b, offset as u64, blank, filled, Ok(count)));
    assert(got =~= part_of(b, offset, n));
}

/// The window of a source that holds `b` shows its first 128 KiB, its last 4 KiB and its
/// length; sniffing it does not fail.
pub proof fn a_window_shows_the_bytes_of_the_source(
    source: DynSource,
    b: Seq<u8>,
    r: VfsResult<WindowModel>,
)
    requires
        holds_bytes(source, b),
        sniffs(source, r),
        forall|offset: u64, before: Seq<u8>, after: Seq<u8>, e: VfsError|
            !#[trigger] source.inner.may_read(offset, before, after, Err(e)),
    ensures
        r matches Ok(w) && {
            &&& w.base == 0
            &&& w.total_len == b.len()
            &&& w.bytes == b.take(
                if b.len() < 131072 {
                    b.len() as int
                } else {
                    131072
                },
            )
            &&& w.tail == b.skip(
                if b.len() < 4096 {
                    0
                } else {
                    b.len() - 4096
                },
            )
        },
{
    crate::order_laws::sniffing_shows_the_head_and_the_tail(source, r);
    if let Ok(w) = r {
        let total = w.total_len as int;
        let head = if total == 0 {
            1
        } else if total < 131072 {
            total
        } else {
            131072
        };
        let tail = if total < 4096 {
            total
        } else {
            4096
        };
        lemma_shown(source, b, 0, head, w.bytes);
        lemma_shown(source, b, total - tail, tail, w.tail);
        assert(w.bytes =~= b.take(
            if b.len() < 131072 {
                b.len() as int
            } else {
                131072
            },
        ));
        assert(w.tail =~= b.skip(
            if b.len() < 4096 {
                0
            } else {
                b.len() - 4096
            },
        ));
    }
}

// ---------------------------------------------------------------------------
// Cursors
// ---------------------------------------------------------------------------

/// A cursor spans its part of the source: it begins where it was asked to, is as long as
/// that part, and stands at its start.
pub proof fn a_cursor_spans_its_part(
    src: DynSource,
    b: Seq<u8>,
    start: u64,
    len: u64,
    c: SourceCursor,
)
    requires
        holds_bytes(src, b),
        call_ensures(SourceCursor::new, (src, start, len), c),
    ensures
        c.source() == src,
        c.base() == start,
        c.pos() == 0,
        c.window_len() == part_of(b, start as int, len as int).len(),
{
    let n = choose|n: u64| #[trigger]
        src.inner.may_len(n) && c.window_len() == clamped(start, len, n);
    assert(src.inner.may_len(n));
}

/// The three ways to say where a cursor goes agree: from the end is from the start by the
/// length of the window, from here is from the start by the position.
pub proof fn positions_are_counted_from_the_start(c: SourceCursor, o: u64, d: i64)
    ensures
        c.target(SeekFrom::Start(o)) == o,
        c.target(SeekFrom::End(d)) == c.target(SeekFrom::Start(c.window_len())) + d,
        c.target(SeekFrom::Current(d)) == c.target(SeekFrom::Start(c.pos())) + d,
{
}

// ---------------------------------------------------------------------------
// Pools
// ---------------------------------------------------------------------------

/// A read at `pos` of a stream of `b` gives some of the bytes there, none only where there
/// are none or none was asked for, and leaves the reader behind them.
pub open spec fn streams_on(
    b: Seq<u8>,
    pos: int,
    before: Seq<u8>,
    filled: Seq<u8>,
    next: int,
    r: Result<usize, std::io::Error>,
) -> bool {
    let most = available(b, pos, before.len() as int);
    &&& r matches Ok(n) && n <= most && (n == 0 <==> most == 0) && next == pos + n && forall|i: int|
        0 <= i < filled.len() ==> #[trigger] filled[i] == if i < n {
            b[pos + i]
        } else {
            before[i]
        }
}

/// The readers of this type are over a stream of `b`; `pos` is where one stands.
pub open spec fn streams<R: SeekRead>(b: Seq<u8>, pos: spec_fn(R) -> int) -> bool {
    &&& forall|s: R, offset: u64, after: R, r: Result<u64, std::io::Error>| #[trigger]
        s.may_seek(offset, after, r) ==> r is Ok && pos(after) == offset
    &&& forall|
        s: R,
        before: Seq<u8>,
        filled: Seq<u8>,
        after: R,
        r: Result<usize, std::io::Error>,
    | #[trigger]
        s.may_fill(before, filled, after, r) && filled.len() == before.len() ==> streams_on(
            b,
            pos(s),
            before,
            filled,
            pos(after),
            r,
        )
}

proof fn lemma_fills<R: SeekRead>(
    b: Seq<u8>,
    pos: spec_fn(R) -> int,
    reader: R,
    offset: int,
    total: int,
    before: Seq<u8>,
    after: Seq<u8>,
    r: VfsResult<usize>,
)
    requires
        streams(b, pos),
        0 <= offset,
        0 <= total <= before.len() <= usize::MAX,
        pos(reader) == offset + total,
        fills(reader, total, before, after, r),
    ensures
        ({
            let k = total + available(b, offset + total, before.len() - total);
            &&& r matches Ok(got) && got == k
            &&& after.len() == before.len()
            &&& forall|i: int|
                0 <= i < after.len() ==> #[trigger] after[i] == if total <= i < k {
                    b[offset + i]
                } else {
                    before[i]
                }
        }),
    decreases before.len() - total,
{
    if total < before.len() {
        let (slot, next, got) = choose|slot: Seq<u8>, next: R, got: Result<usize, std::io::Error>|
            {
                &&& #[trigger] reader.may_fill(before.skip(total), slot, next, got)
                &&& slot.len() == before.len() - total
                &&& got matches Ok(n) ==> n <= slot.len()
                &&& {
                    let filled = before.take(total) + slot;
                    match got {
                        Err(source) => after == filled && r == Err::<usize, VfsError>(
                            VfsError::Io { op: "read", source },
                        ),
                        Ok(n) => if n == 0 {
                            after == filled && r == Ok::<usize, VfsError>(total as usize)
                        } else {
                            fills(next, total + n, filled, after, r)
                        },
                    }
                }
            };
        let asked = before.skip(total);
        assert(streams_on(b, pos(reader), asked, slot, pos(next), got));
        let n = got->Ok_0;
        let filled = before.take(total) + slot;
        assert forall|i: int| 0 <= i < filled.len() implies #[trigger] filled[i] == if total <= i
            < total + n {
            b[offset + i]
        } else {
            before[i]
        } by {
            if i >= total {
                assert(filled[i] == slot[i - total]);
            }
        }
        if n > 0 {
            lemma_fills(b, pos, next, offset, total + n, filled, after, r);
        }
    }
}

/// A pooled read gives the bytes of the stream from the offset on, as many as there are and
/// the buffer takes, however few the reader gives at a time.
pub proof fn a_pooled_read_gives_the_streams_bytes<R: SeekRead>(
    b: Seq<u8>,
    pos: spec_fn(R) -> int,
    reader: R,
    offset: u64,
    before: Seq<u8>,
    after: Seq<u8>,
    r: VfsResult<usize>,
)
    requires
        streams(b, pos),
        offset < b.len() <= u64::MAX,
        before.len() <= usize::MAX,
        pooled_read(reader, b.len() as u64, offset, before, after, r),
    ensures
        reads_true(b, offset, before, after, r),
{
    let len = b.len() as u64;
    let (next, got) = choose|next: R, got: Result<u64, std::io::Error>|
        {
            &&& #[trigger] reader.may_seek(offset, next, got)
            &&& match got {
                Err(source) => after == before && r == Err::<usize, VfsError>(
                    VfsError::Io { op: "seek", source },
                ),
                Ok(_) => {
                    let want = wanted(before.len(), offset, len);
                    after.len() == before.len() && after.skip(want) == before.skip(want) && fills(
                        next,
                        0,
                        before.take(want),
                        after.take(want),
                        r,
                    )
                },
            }
        };
    let want = wanted(before.len(), offset, len);
    lemma_fills(b, pos, next, offset as int, 0, before.take(want), after.take(want), r);
    assert forall|i: int| 0 <= i < after.len() implies #[trigger] after[i] == if i < available(
        b,
        offset as int,
        before.len() as int,
    ) {
        b[offset + i]
    } else {
        before[i]
    } by {
        if i < want {
            assert(after.take(want)[i] == after[i]);
        } else {
            assert(after.skip(want)[i - want] == after[i]);
            assert(before.skip(want)[i - want] == before[i]);
        }
    }
}

/// A pool with readers over a stream of `b` reads as the stream does; without readers, or
/// past the end, it reads nothing.
pub proof fn a_pool_reads_as_its_stream<R: SeekRead>(
    pool: SeekPoolSource<R>,
    b: Seq<u8>,
    pos: spec_fn(R) -> int,
    offset: u64,
    before: Seq<u8>,
    after: Seq<u8>,
    r: VfsResult<usize>,
)
    requires
        streams(b, pos),
        pool.stream_len() == b.len(),
        before.len() <= usize::MAX,
        pool.may_read(offset, before, after, r),
    ensures
        pool.size() > 0 ==> reads_true(b, offset, before, after, r),
        pool.size() == 0 ==> r == Ok::<usize, VfsError>(0) && after == before,
{
    if offset < b.len() && pool.size() > 0 {
        let reader = choose|reader: R| #[trigger]
            pooled_read(reader, pool.stream_len(), offset, before, after, r);
        a_pooled_read_gives_the_streams_bytes(b, pos, reader, offset, before, after, r);
    }
}

// ---------------------------------------------------------------------------
// Extents
// ---------------------------------------------------------------------------

/// What is allocated by two lists of runs, one after the other, is what both allocate; one
/// run allocates its length.
pub proof fn allocated_lengths_add_up(a: Seq<Extent>, b: Seq<Extent>, e: Extent)
    ensures
        total_len(a + b) == total_len(a) + total_len(b),
        total_len(seq![e]) == e.len,
    decreases b.len(),
{
    assert(seq![e].drop_last() =~= Seq::<Extent>::empty());
    assert(total_len(seq![e].drop_last()) == 0);
    if b.len() == 0 {
        assert(a + b =~= a);
    } else {
        allocated_lengths_add_up(a, b.drop_last(), e);
        assert((a + b).drop_last() =~= a + b.drop_last());
    }
}

/// The dense map of a stream allocates all of it, in one run from its start.
pub proof fn a_dense_map_allocates_everything(len: u64, m: Extents)
    requires
        call_ensures(Extents::dense, (len,), m),
    ensures
        total_len(m@) == len,
        m@.len() <= 1,
        forall|i: int| 0 <= i < m@.len() ==> (#[trigger] m@[i]).offset == 0,
        len == 0 ==> m@.len() == 0,
{
    if len > 0 {
        let e = Extent { offset: 0, len };
        allocated_lengths_add_up(Seq::empty(), Seq::empty(), e);
        assert(m@ =~= seq![e]);
    }
}

} // verus!

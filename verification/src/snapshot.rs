//! One snapshot of a filesystem as a time-indexed state.

use vstd::prelude::*;

use state_history_forensic::epoch::EpochTag;

use crate::pathspec::{Layer, LayerModel, PathSpec, SnapshotRef};
use crate::read::be_value;

verus! {

broadcast use vstd::seq::group_seq_axioms;

/// `state_history_forensic::epoch::EpochTag`, with its bytes.
#[verifier::external_type_specification]
pub struct ExEpochTag(state_history_forensic::epoch::EpochTag);

/// `EpochTag::from_bytes`: the tag that holds these bytes.
pub assume_specification[ EpochTag::from_bytes ](bytes: [u8; 32]) -> (t: EpochTag)
    ensures
        t.0 == bytes,
;

/// One snapshot of a filesystem: its wall-clock tag, its transaction id, its name and
/// a locator that can be opened again.
#[derive(Debug)]
pub struct SnapshotView {
    /// Time-indexed identity, derived from the snapshot's creation time.
    pub epoch: EpochTag,
    /// The snapshot transaction id.
    pub xid: u64,
    /// The snapshot name.
    pub name: String,
    /// The locator of the snapshot.
    pub locator: PathSpec,
}

impl Clone for SnapshotView {
    fn clone(&self) -> (r: Self)
        ensures
            r.epoch == self.epoch,
            r.xid == self.xid,
            r.name@ == self.name@,
            r.locator@ == self.locator@,
    {
        SnapshotView {
            epoch: self.epoch,
            xid: self.xid,
            name: self.name.clone(),
            locator: self.locator.clone(),
        }
    }
}

/// The tag of a creation time: 24 zero bytes, then the time as a big-endian number of
/// eight bytes.
pub open spec fn is_epoch_of(tag: EpochTag, create_time_ns: u64) -> bool {
    &&& forall|i: int| 0 <= i < 24 ==> #[trigger] tag.0@[i] == 0
    &&& time_of(tag) == create_time_ns
}

/// The creation time that a tag was derived from.
pub open spec fn time_of(tag: EpochTag) -> nat {
    be_value(tag.0@.subrange(24, 32))
}

/// The tag of a creation time in nanoseconds since 1970-01-01 UTC.
pub fn epoch_from_create_time(create_time_ns: u64) -> (r: EpochTag)
    ensures
        is_epoch_of(r, create_time_ns),
{
    let mut bytes: [u8; 32] = [0u8;32];
    let mut left: u64 = create_time_ns;
    let mut i: usize = 32;
    proof {
        assert(bytes@.subrange(32, 32) =~= Seq::empty());
        reveal_with_fuel(weight, 9);
    }
    while i > 24
        invariant
            24 <= i <= 32,
            forall|k: int| 0 <= k < 24 ==> #[trigger] bytes@[k] == 0,
            create_time_ns == left * weight(32 - i) + be_value(bytes@.subrange(i as int, 32)),
            left < weight(i - 24),
        decreases i,
    {
        i = i - 1;
        let ghost before = bytes@;
        let ghost whole = left;
        bytes[i] = (left % 256) as u8;
        left = left / 256;
        proof {
            let b = (whole % 256) as u8;
            let low = before.subrange(i + 1, 32);
            assert(bytes@.subrange(i as int, 32) =~= seq![b] + low);
            lemma_be_first(b, low);
            let w = weight(31 - i);
            assert(whole * w == left * (256 * w) + b * w) by (nonlinear_arith)
                requires
                    whole == 256 * left + b,
            ;
        }
    }
    EpochTag::from_bytes(bytes)
}

/// What a byte counts that `n` bytes follow.
spec fn weight(n: int) -> nat
    decreases n,
{
    if n <= 0 {
        1
    } else {
        256 * weight(n - 1)
    }
}

/// One more byte at the start of a big-endian number.
proof fn lemma_be_first(b: u8, s: Seq<u8>)
    ensures
        be_value(seq![b] + s) == b * weight(s.len() as int) + be_value(s),
    decreases s.len(),
{
    let longer = seq![b] + s;
    if s.len() == 0 {
        assert(longer.drop_last() =~= Seq::empty());
        assert(be_value(longer.drop_last()) == 0);
        assert(b * weight(0) == b) by (nonlinear_arith)
            requires
                weight(0) == 1,
        ;
    } else {
        let rest = s.drop_last();
        lemma_be_first(b, rest);
        assert(longer.drop_last() =~= seq![b] + rest);
        let w = weight(rest.len() as int);
        assert((b * w) * 256 == b * (256 * w)) by (nonlinear_arith);
    }
}

/// Two big-endian numbers of one length are the same only when their bytes are.
proof fn lemma_be_distinct(a: Seq<u8>, b: Seq<u8>)
    requires
        a.len() == b.len(),
        be_value(a) == be_value(b),
    ensures
        a == b,
    decreases a.len(),
{
    if a.len() == 0 {
        assert(a =~= b);
    } else {
        lemma_be_distinct(a.drop_last(), b.drop_last());
        assert(a =~= a.drop_last().push(a.last()));
        assert(b =~= b.drop_last().push(b.last()));
    }
}

/// The first byte in which the two differ is smaller in `a`.
pub open spec fn bytes_below(a: Seq<u8>, b: Seq<u8>) -> bool {
    exists|k: int|
        {
            &&& 0 <= k < a.len()
            &&& k < b.len()
            &&& #[trigger] a.take(k) == b.take(k)
            &&& a[k] < b[k]
        }
}

proof fn lemma_be_below(a: Seq<u8>, b: Seq<u8>)
    requires
        a.len() == b.len(),
        be_value(a) < be_value(b),
    ensures
        bytes_below(a, b),
    decreases a.len(),
{
    if a.len() > 0 {
        let c = a.drop_last();
        let d = b.drop_last();
        if be_value(c) == be_value(d) {
            lemma_be_distinct(c, d);
            let k = a.len() - 1;
            assert(a.take(k) =~= c);
            assert(b.take(k) =~= d);
        } else {
            lemma_be_below(c, d);
            let k = choose|k: int|
                {
                    &&& 0 <= k < c.len()
                    &&& k < d.len()
                    &&& #[trigger] c.take(k) == d.take(k)
                    &&& c[k] < d[k]
                };
            assert(a.take(k) =~= c.take(k));
            assert(b.take(k) =~= d.take(k));
        }
    }
}

/// A later creation time gives a greater tag, byte by byte.
pub proof fn a_later_time_gives_a_greater_tag(a: EpochTag, b: EpochTag, t: u64, u: u64)
    requires
        is_epoch_of(a, t),
        is_epoch_of(b, u),
        t < u,
    ensures
        bytes_below(a.0@, b.0@),
{
    let c = a.0@.subrange(24, 32);
    let d = b.0@.subrange(24, 32);
    lemma_be_below(c, d);
    let k = choose|k: int|
        {
            &&& 0 <= k < c.len()
            &&& k < d.len()
            &&& #[trigger] c.take(k) == d.take(k)
            &&& c[k] < d[k]
        };
    let n = 24 + k;
    assert forall|i: int| 0 <= i < n implies a.0@[i] == b.0@[i] by {
        if i >= 24 {
            assert(c.take(k)[i - 24] == a.0@[i]);
            assert(d.take(k)[i - 24] == b.0@[i]);
        }
    }
    assert(a.0@.take(n) =~= b.0@.take(n));
    assert(c[k] == a.0@[n]);
    assert(d[k] == b.0@[n]);
}

/// A creation time has one tag, and a tag is of one creation time.
pub proof fn a_time_and_its_tag_determine_each_other(a: EpochTag, b: EpochTag, t: u64, u: u64)
    requires
        is_epoch_of(a, t),
        is_epoch_of(b, u),
    ensures
        a.0@ == b.0@ <==> t == u,
{
    if t == u {
        let c = a.0@.subrange(24, 32);
        let d = b.0@.subrange(24, 32);
        lemma_be_distinct(c, d);
        assert forall|i: int| 0 <= i < 32 implies a.0@[i] == b.0@[i] by {
            if i >= 24 {
                assert(c[i - 24] == d[i - 24]);
            }
        }
        assert(a.0@ =~= b.0@);
    }
}

/// The view of one snapshot under `source_spec`, the locator of the source below the
/// filesystem.
pub fn snapshot_view(source_spec: &PathSpec, xid: u64, name: String, create_time: u64) -> (r:
    SnapshotView)
    ensures
        is_epoch_of(r.epoch, create_time),
        r.xid == xid,
        r.name@ == name@,
        r.locator@ == source_spec@.push(
            LayerModel::Snapshot { store: SnapshotRef::ApfsXid(xid) },
        ),
{
    SnapshotView {
        epoch: epoch_from_create_time(create_time),
        xid,
        name,
        locator: source_spec.clone().push(Layer::Snapshot { store: SnapshotRef::ApfsXid(xid) }),
    }
}

} // verus!

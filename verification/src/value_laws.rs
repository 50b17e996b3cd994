//! The small values, said by what goes in and what comes out.

use vstd::prelude::*;

use crate::encryption::{Credential, CredentialSource, DynCredentials, EncryptionScheme};
use crate::engine::ntfs_mount_error;
use crate::error::VfsError;
use crate::pathspec::{Layer, LayerModel, PathSpec, SnapshotRef};
use crate::registry::{Confidence, SniffWindow};
use crate::resolver::SniffBuffers;
use crate::snapshot::{snapshot_view, SnapshotView};
use crate::source::{SourceId, SourceView};

verus! {

broadcast use vstd::seq::group_seq_axioms;

/// A verdict is worth an attempt unless it is a refusal, and certain only when it is a claim.
pub proof fn a_verdict_is_a_claim_a_doubt_or_a_refusal(c: Confidence, worth_it: bool, sure: bool)
    requires
        call_ensures(Confidence::is_candidate, (c,), worth_it),
        call_ensures(Confidence::is_yes, (c,), sure),
    ensures
        match c {
            Confidence::No => !worth_it && !sure,
            Confidence::Maybe => worth_it && !sure,
            Confidence::Yes { .. } => worth_it && sure,
        },
{
}

/// The handle of no credentials offers an empty list, whatever is asked for.
pub proof fn no_credentials_are_none_for_anything(
    creds: DynCredentials,
    scheme: EncryptionScheme,
    target: Seq<char>,
    offered: Seq<Credential>,
)
    requires
        call_ensures(DynCredentials::none, (), creds),
        creds.inner.may_offer(scheme, target, offered),
    ensures
        offered.len() == 0,
{
}

/// A snapshot is found under its source: its locator is the source's with one layer more,
/// which names the transaction, and its tag ends in the time of its creation.
pub proof fn a_snapshot_is_found_under_its_source(
    source: &PathSpec,
    xid: u64,
    name: String,
    time: u64,
    v: SnapshotView,
)
    requires
        call_ensures(snapshot_view, (source, xid, name, time), v),
    ensures
        v.locator@.len() == source@.len() + 1,
        forall|i: int| 0 <= i < source@.len() ==> #[trigger] v.locator@[i] == source@[i],
        v.locator@.last() == (LayerModel::Snapshot { store: SnapshotRef::ApfsXid(xid) }),
        v.xid == xid,
        v.name@ == name@,
        forall|i: int| 0 <= i < 24 ==> #[trigger] v.epoch.0@[i] == 0,
        ({
            let d = v.epoch.0@;
            time == 0x1_0000_0000 * (0x100_0000 * d[24] + 0x1_0000 * d[25] + 0x100 * d[26] + d[27])
                + (0x100_0000 * d[28] + 0x1_0000 * d[29] + 0x100 * d[30] + d[31])
        }),
{
    let d = v.epoch.0@;
    assert(d.len() == 32);
    crate::read::lemma_be8(d, 24);
    crate::read::lemma_be4(d, 24);
    crate::read::lemma_be4(d, 28);
}

/// A locator that is put on another stands above it: the other is its parent, and its own
/// layer comes last.
pub proof fn a_layer_is_put_on_its_parent(p: PathSpec, l: Layer, q: PathSpec)
    requires
        call_ensures(PathSpec::push, (p, l), q),
    ensures
        q@.len() == p@.len() + 1,
        forall|i: int| 0 <= i < p@.len() ==> #[trigger] q@[i] == p@[i],
        q@.last() == l@,
{
}

/// The error of an NTFS volume that could not be mounted names the filesystem and why.
pub proof fn a_failed_mount_says_why(detail: String, e: VfsError)
    requires
        call_ensures(ntfs_mount_error, (detail,), e),
    ensures
        match e {
            VfsError::Decode { layer, offset, detail: d, bytes } => {
                &&& layer@ == "ntfs"@
                &&& offset == 0
                &&& d@ == detail@
                &&& bytes@.len() == 0
            },
            _ => false,
        },
{
}

/// A head-only window shows its bytes from its base, ends where they end, and has no tail.
pub proof fn a_head_is_a_window_without_a_tail(base: u64, bytes: &[u8], w: SniffWindow<'_>)
    requires
        call_ensures(SniffWindow::new, (base, bytes), w),
    ensures
        w@.base == base,
        w@.bytes == bytes@,
        w@.tail.len() == 0,
        base + bytes@.len() <= u64::MAX ==> w@.total_len == base + bytes@.len(),
        base + bytes@.len() > u64::MAX ==> w@.total_len == u64::MAX,
{
}

/// The window over a head and a tail shows both, from the start of the source on.
pub proof fn a_window_shows_its_head_and_tail(b: &SniffBuffers, w: SniffWindow<'_>)
    requires
        call_ensures(SniffBuffers::window, (b,), w),
    ensures
        w@.base == 0,
        w@.bytes == b.head@,
        w@.tail == b.tail@,
        w@.total_len == b.total,
{
}

/// A view of a block shows the part of it that its range covers, and nothing when the range
/// does not lie within the block.
pub proof fn a_view_shows_its_range(v: SourceView<'_>)
    ensures
        match v {
            SourceView::Mmap(s) => v.bytes() == s@,
            SourceView::Block(block, r) => if r.start <= r.end && r.end <= block@.len() {
                &&& v.bytes().len() == r.end - r.start
                &&& forall|i: int|
                    0 <= i < r.end - r.start ==> #[trigger] v.bytes()[i] == block@[r.start + i]
            } else {
                v.bytes().len() == 0
            },
        },
{
}

/// An identity holds the number that it was made of; the root's is zero.
pub proof fn an_identity_is_its_number(n: u64, a: SourceId, got: u64, root: SourceId, zero: u64)
    requires
        call_ensures(SourceId::new, (n,), a),
        call_ensures(SourceId::get, (a,), got),
        call_ensures(SourceId::root, (), root),
        call_ensures(SourceId::get, (root,), zero),
    ensures
        got == n,
        zero == 0,
{
}

} // verus!

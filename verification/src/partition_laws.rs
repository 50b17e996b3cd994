//! What holds of every partition table, whatever its bytes are.

use vstd::prelude::*;

use crate::adapters::{clamped, shares, SubRange};
use crate::partition::{
    gpt_entry, gpt_entry_count, gpt_entry_size, gpt_volumes, in_use, mbr_entry, mbr_type,
    mbr_volumes, opens_window, MbrProbe, GPT_MAX_ENTRIES, PROTECTIVE,
};
use crate::registry::{Confidence, VolumeSystemProbe, WindowModel};
use crate::source::{DynSource, ImageSource};
use crate::volume::VolumeModel;

verus! {

broadcast use vstd::seq::group_seq_axioms;

/// The volumes are the entries of the first `n` that are in use, each under its index,
/// in the order of the table.
pub open spec fn lists_entries(
    entry: spec_fn(int) -> Option<VolumeModel>,
    n: int,
    volumes: Seq<VolumeModel>,
) -> bool {
    &&& volumes.len() <= n
    &&& forall|k: int|
        0 <= k < volumes.len() ==> {
            &&& 0 <= (#[trigger] volumes[k]).index < n
            &&& entry(volumes[k].index) == Some(volumes[k])
        }
    &&& forall|j: int, k: int|
        0 <= j < k < volumes.len() ==> (#[trigger] volumes[j]).index < (
        #[trigger] volumes[k]).index
    &&& forall|i: int|
        0 <= i < n && (#[trigger] entry(i)) is Some ==> volumes.contains(entry(i)->0)
}

proof fn lemma_in_use(entry: spec_fn(int) -> Option<VolumeModel>, n: int)
    requires
        n >= 0,
        forall|i: int| 0 <= i < n && (#[trigger] entry(i)) is Some ==> entry(i)->0.index == i,
    ensures
        lists_entries(entry, n, in_use(entry, n)),
    decreases n,
{
    if n > 0 {
        lemma_in_use(entry, n - 1);
        let before = in_use(entry, n - 1);
        let all = in_use(entry, n);
        match entry(n - 1) {
            Some(v) => {
                assert(all == before.push(v));
                assert(all[before.len() as int] == v);
                assert forall|i: int| 0 <= i < n && (#[trigger] entry(i)) is Some implies
                    all.contains(entry(i)->0) by {
                    if i < n - 1 {
                        assert(before.contains(entry(i)->0));
                        let k = choose|k: int| 0 <= k < before.len() && before[k] == entry(i)->0;
                        assert(all[k] == entry(i)->0);
                    }
                }
                assert forall|j: int, k: int| 0 <= j < k < all.len() implies (
                #[trigger] all[j]).index < (#[trigger] all[k]).index by {
                    assert(all[j] == before[j]);
                    if k < before.len() {
                        assert(all[k] == before[k]);
                    }
                }
                assert forall|k: int| 0 <= k < all.len() implies {
                    &&& 0 <= (#[trigger] all[k]).index < n
                    &&& entry(all[k].index) == Some(all[k])
                } by {
                    if k < before.len() {
                        assert(all[k] == before[k]);
                    }
                }
            },
            None => {
                assert(all == before);
            },
        }
    }
}

/// The boot sector's table has at most four volumes: its entries in use, in order.
pub proof fn mbr_volumes_are_the_entries_in_use(sector: Seq<u8>)
    ensures
        lists_entries(|i: int| mbr_entry(sector, i), 4, mbr_volumes(sector)),
{
    let entry = |i: int| mbr_entry(sector, i);
    lemma_in_use(entry, 4);
}

/// A GUID partition table has no more volumes than entries that it was read for: the
/// ones in use, in order.
pub proof fn gpt_volumes_are_the_entries_in_use(arr: Seq<u8>, size: int, n: int)
    requires
        0 <= n,
    ensures
        lists_entries(|i: int| gpt_entry(arr, size, i), n, gpt_volumes(arr, size, n)),
{
    let entry = |i: int| gpt_entry(arr, size, i);
    lemma_in_use(entry, n);
}

/// Whatever a header asks for, no more than 256 entries of 512 bytes are read.
pub proof fn a_hostile_header_is_bounded(header: Seq<u8>)
    ensures
        0 <= gpt_entry_count(header) <= GPT_MAX_ENTRIES,
        128 <= gpt_entry_size(header) <= 512,
        0 <= gpt_entry_count(header) * gpt_entry_size(header) <= GPT_MAX_ENTRIES * 512,
{
    let n = gpt_entry_count(header);
    let size = gpt_entry_size(header);
    assert(0 <= n * size <= 256 * 512) by (nonlinear_arith)
        requires
            0 <= n <= 256,
            0 <= size <= 512,
    ;
}

/// A boot sector whose entries are unused or only stand for a GUID partition table is
/// left to the latter's prober.
pub proof fn a_protective_table_is_left_to_gpt(w: WindowModel, c: Confidence)
    requires
        forall|i: int|
            0 <= i < 4 ==> #[trigger] mbr_type(w.bytes, i) == 0 || mbr_type(w.bytes, i)
                == PROTECTIVE,
        MbrProbe.may_probe(w, c),
    ensures
        c is No,
{
    assert forall|i: int| 0 <= i < 4 implies #[trigger] mbr_entry(w.bytes, i) is None by {
        assert(mbr_type(w.bytes, i) == 0 || mbr_type(w.bytes, i) == PROTECTIVE);
    }
}

/// An opened volume is no longer than its entry says and ends within its disk.
pub proof fn a_volume_stays_within_its_disk(
    parent: DynSource,
    desc: VolumeModel,
    d: DynSource,
    m: u64,
)
    requires
        opens_window(parent, desc, d),
        d.inner.may_len(m),
    ensures
        m <= desc.len,
        exists|n: u64| #[trigger] parent.inner.may_len(n) && (m > 0 ==> desc.start + m <= n),
{
    let (w, n) = choose|w: SubRange, n: u64|
        {
            &&& #[trigger] shares(d, w)
            &&& #[trigger] parent.inner.may_len(n)
            &&& w.parent() == parent
            &&& w.base() == desc.start
            &&& w.window_len() == clamped(desc.start, desc.len, n)
        };
    assert(w.may_len(m));
}

} // verus!

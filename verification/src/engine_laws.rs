//! What holds of every engine, whatever its probers answer.

use vstd::prelude::*;

use crate::engine::{
    filesystems_scan, finds, head_window, mounted, scan_at, scans, volume_system_scan,
    volume_systems_scan, volumes_scan, Scan, Vfs, HEAD_LEN,
};
use crate::error::{VfsError, VfsResult};
use crate::fs::DynFs;
use crate::order_laws::{may_show, nothing, unreadable};
use crate::pathspec::LayerModel;
use crate::registry::{Confidence, RegistryModel, WindowModel};
use crate::resolver::{reads_prefix, Evidence, MAX_DEPTH};
use crate::source::DynSource;
use crate::volume::{VolumeDesc, VolumeSystem};

verus! {

broadcast use vstd::seq::group_seq_axioms;

/// Past the depth cap nothing is found, and nothing is read.
pub proof fn past_the_cap_nothing_is_found(
    reg: RegistryModel,
    source: DynSource,
    depth: int,
    r: VfsResult<Option<DynFs>>,
)
    requires
        depth > MAX_DEPTH,
        finds(reg, source, depth, r),
    ensures
        r == Ok::<Option<DynFs>, VfsError>(None),
{
}

/// Filesystem prober `i` declines the window.
pub open spec fn reader_declines(reg: RegistryModel, i: int, w: WindowModel) -> bool {
    forall|c: Confidence| #[trigger] reg.filesystems[i].may_probe(w, c) ==> c is No
}

/// Volume-system prober `i` declines the window.
pub open spec fn table_declines(reg: RegistryModel, i: int, w: WindowModel) -> bool {
    forall|c: Confidence| #[trigger] reg.volume_systems[i].may_probe(w, c) ==> c is No
}

proof fn lemma_readers_decline(
    at: Scan,
    i: int,
    to: int,
    r: VfsResult<Option<DynFs>>,
    rest: bool,
)
    requires
        0 <= i <= to <= at.reg.filesystems.len(),
        forall|j: int| i <= j < to ==> #[trigger] reader_declines(at.reg, j, at.w),
        filesystems_scan(at, i, r, rest),
    ensures
        filesystems_scan(at, to, r, rest),
    decreases to - i,
{
    if i < to {
        assert(reader_declines(at.reg, i, at.w));
        lemma_readers_decline(at, i + 1, to, r, rest);
    }
}

proof fn lemma_tables_decline(at: Scan, i: int, r: VfsResult<Option<DynFs>>, rest: bool)
    requires
        0 <= i <= at.reg.volume_systems.len(),
        forall|j: int|
            i <= j < at.reg.volume_systems.len() ==> #[trigger] table_declines(at.reg, j, at.w),
        volume_systems_scan(at, i, r, rest),
    ensures
        rest,
    decreases at.reg.volume_systems.len() - i,
{
    if i < at.reg.volume_systems.len() {
        assert(table_declines(at.reg, i, at.w));
        lemma_tables_decline(at, i + 1, r, rest);
    }
}

/// The first filesystem prober that claims the source mounts it, and what it mounts,
/// or its failure, is the outcome: no partition table can shadow it.
pub proof fn the_first_claiming_reader_mounts(at: Scan, i: int, r: VfsResult<Option<DynFs>>)
    requires
        0 <= i < at.reg.filesystems.len(),
        forall|j: int| 0 <= j < i ==> #[trigger] reader_declines(at.reg, j, at.w),
        forall|c: Confidence| #[trigger]
            at.reg.filesystems[i].may_probe(at.w, c) ==> !(c is No),
        scans(at, r),
    ensures
        exists|opened: VfsResult<DynFs>|
            {
                &&& #[trigger] at.reg.filesystems[i].may_open(at.source, opened)
                &&& r == mounted(opened)
            },
{
    let rest = volume_systems_scan(at, 0, r, r == Ok::<Option<DynFs>, VfsError>(None));
    lemma_readers_decline(at, 0, i, r, rest);
}

/// A source that no prober recognizes is a clean unknown: nothing is found, and the
/// only error is a failure to read its head.
pub proof fn an_unknown_source_is_no_error(
    reg: RegistryModel,
    source: DynSource,
    depth: int,
    r: VfsResult<Option<DynFs>>,
)
    requires
        finds(reg, source, depth, r),
        forall|h: Seq<u8>, i: int|
            reads_prefix(source, 0, HEAD_LEN as int, Ok(h)) && 0 <= i < reg.filesystems.len()
                ==> #[trigger] reader_declines(reg, i, head_window(h)),
        forall|h: Seq<u8>, i: int|
            reads_prefix(source, 0, HEAD_LEN as int, Ok(h)) && 0 <= i < reg.volume_systems.len()
                ==> #[trigger] table_declines(reg, i, head_window(h)),
    ensures
        match r {
            Ok(found) => found is None,
            Err(e) => depth <= MAX_DEPTH && reads_prefix(source, 0, HEAD_LEN as int, Err(e)),
        },
{
    if depth <= MAX_DEPTH {
        let head = choose|head: VfsResult<Seq<u8>>|
            {
                &&& #[trigger] reads_prefix(source, 0, HEAD_LEN as int, head)
                &&& match head {
                    Err(e) => r == Err::<Option<DynFs>, VfsError>(e),
                    Ok(h) => scans(scan_at(reg, source, h, depth), r),
                }
            };
        if let Ok(h) = head {
            let at = scan_at(reg, source, h, depth);
            let nothing = r == Ok::<Option<DynFs>, VfsError>(None);
            let rest = volume_systems_scan(at, 0, r, nothing);
            lemma_readers_decline(at, 0, at.reg.filesystems.len() as int, r, rest);
            lemma_tables_decline(at, 0, r, nothing);
        }
    }
}

// ---------------------------------------------------------------------------
// The order of a scan
// ---------------------------------------------------------------------------

/// The window is one of the source: its first 4 KiB, or as much as there is, and nothing
/// of its end.
pub open spec fn scan_window(source: DynSource, w: WindowModel) -> bool {
    &&& w.base == 0
    &&& w.total_len == w.bytes.len()
    &&& w.tail.len() == 0
    &&& may_show(source, 0, 4096, w.bytes)
}

/// Volume `j` opens, and what it holds may come to `c`.
pub open spec fn volume_finds(
    reg: RegistryModel,
    sys: &Box<dyn VolumeSystem>,
    j: int,
    depth: int,
    c: VfsResult<Option<DynFs>>,
) -> bool {
    exists|sub: DynSource| #[trigger]
        sys.may_open_volume(j as usize, Ok(sub)) && finds(reg, sub, depth + 1, c)
}

/// The volumes before `n` all come to nothing.
pub open spec fn volumes_find_nothing(
    reg: RegistryModel,
    sys: &Box<dyn VolumeSystem>,
    n: int,
    depth: int,
) -> bool {
    forall|j: int| 0 <= j < n ==> #[trigger] volume_finds(reg, sys, j, depth, Ok(None))
}

/// Volume `j` gives the outcome: what it holds does, or a failure to open it.
pub open spec fn volume_settles(
    reg: RegistryModel,
    sys: &Box<dyn VolumeSystem>,
    j: int,
    depth: int,
    r: VfsResult<Option<DynFs>>,
) -> bool {
    &&& !nothing(r)
    &&& volume_finds(reg, sys, j, depth, r) || (r matches Err(e) && sys.may_open_volume(
        j as usize,
        Err(e),
    ))
}

/// Of the `n` volumes, in the order of the table, the first that does not come to nothing
/// gives the outcome.
pub open spec fn first_volume_settles(
    reg: RegistryModel,
    sys: &Box<dyn VolumeSystem>,
    n: int,
    depth: int,
    r: VfsResult<Option<DynFs>>,
) -> bool {
    exists|m: int|
        0 <= m < n && volumes_find_nothing(reg, sys, m, depth) && #[trigger] volume_settles(
            reg,
            sys,
            m,
            depth,
            r,
        )
}

/// Filesystem prober `i` declines the window.
pub open spec fn reader_passes(reg: RegistryModel, w: WindowModel, i: int) -> bool {
    exists|c: Confidence| #[trigger] reg.filesystems[i].may_probe(w, c) && c is No
}

/// Filesystem prober `i` claims the window, and its mount, or the failure of it, is the
/// outcome.
pub open spec fn reader_settles(
    reg: RegistryModel,
    w: WindowModel,
    source: DynSource,
    i: int,
    r: VfsResult<Option<DynFs>>,
) -> bool {
    &&& exists|c: Confidence| #[trigger] reg.filesystems[i].may_probe(w, c) && !(c is No)
    &&& match r {
        Ok(Some(fs)) => reg.filesystems[i].may_open(source, Ok(fs)),
        Ok(None) => false,
        Err(e) => reg.filesystems[i].may_open(source, Err(e)),
    }
}

/// Volume-system prober `i` declines the window, or nothing comes of any of its volumes.
pub open spec fn table_passes(
    reg: RegistryModel,
    w: WindowModel,
    source: DynSource,
    depth: int,
    i: int,
) -> bool {
    let p = &reg.volume_systems[i];
    exists|c: Confidence| #[trigger]
        p.may_probe(w, c) && (c is No || exists|
            opened: VfsResult<Box<dyn VolumeSystem>>,
            v: Seq<VolumeDesc>,
        |
            {
                &&& #[trigger] p.may_open(source, opened)
                &&& opened is Ok
                &&& #[trigger] opened->Ok_0.may_volumes(v)
                &&& volumes_find_nothing(reg, &opened->Ok_0, v.len() as int, depth)
            })
}

/// Volume-system prober `i` claims the window and gives the outcome.
pub open spec fn table_settles(
    reg: RegistryModel,
    w: WindowModel,
    source: DynSource,
    depth: int,
    i: int,
    r: VfsResult<Option<DynFs>>,
) -> bool {
    let p = &reg.volume_systems[i];
    &&& exists|c: Confidence| #[trigger] p.may_probe(w, c) && !(c is No)
    &&& exists|opened: VfsResult<Box<dyn VolumeSystem>>| #[trigger]
        p.may_open(source, opened) && match opened {
            Err(e) => r == Err::<Option<DynFs>, VfsError>(e),
            Ok(sys) => exists|v: Seq<VolumeDesc>| #[trigger]
                sys.may_volumes(v) && first_volume_settles(reg, &sys, v.len() as int, depth, r),
        }
}

/// The filesystem probers before `n` all decline.
pub open spec fn readers_pass(reg: RegistryModel, w: WindowModel, n: int) -> bool {
    forall|j: int| 0 <= j < n ==> #[trigger] reader_passes(reg, w, j)
}

/// The volume-system probers before `n` all come to nothing.
pub open spec fn tables_pass(
    reg: RegistryModel,
    w: WindowModel,
    source: DynSource,
    depth: int,
    n: int,
) -> bool {
    forall|j: int| 0 <= j < n ==> #[trigger] table_passes(reg, w, source, depth, j)
}

/// The first filesystem prober that claims the window gives the outcome, else the first
/// volume system that does not come to nothing does, else nothing is found.
pub open spec fn first_prober_settles(
    reg: RegistryModel,
    w: WindowModel,
    source: DynSource,
    depth: int,
    r: VfsResult<Option<DynFs>>,
) -> bool {
    let readers = reg.filesystems.len() as int;
    let tables = reg.volume_systems.len() as int;
    ||| exists|m: int|
        0 <= m < readers && #[trigger] reader_settles(reg, w, source, m, r) && readers_pass(
            reg,
            w,
            m,
        )
    ||| readers_pass(reg, w, readers) && exists|m: int|
        0 <= m < tables && #[trigger] table_settles(reg, w, source, depth, m, r) && tables_pass(
            reg,
            w,
            source,
            depth,
            m,
        )
    ||| {
        &&& readers_pass(reg, w, readers)
        &&& tables_pass(reg, w, source, depth, tables)
        &&& nothing(r)
    }
}

proof fn lemma_readers(at: Scan, i: int, r: VfsResult<Option<DynFs>>, rest: bool)
    requires
        0 <= i <= at.reg.filesystems.len(),
        filesystems_scan(at, i, r, rest),
        readers_pass(at.reg, at.w, i),
    ensures
        (exists|m: int|
            0 <= m < at.reg.filesystems.len() && #[trigger] reader_settles(
                at.reg,
                at.w,
                at.source,
                m,
                r,
            ) && readers_pass(at.reg, at.w, m)) || (rest && readers_pass(
            at.reg,
            at.w,
            at.reg.filesystems.len() as int,
        )),
    decreases at.reg.filesystems.len() - i,
{
    if i < at.reg.filesystems.len() {
        let c = choose|c: Confidence|
            {
                &&& #[trigger] at.reg.filesystems[i].may_probe(at.w, c)
                &&& if c is No {
                    filesystems_scan(at, i + 1, r, rest)
                } else {
                    exists|opened: VfsResult<DynFs>|
                        {
                            &&& #[trigger] at.reg.filesystems[i].may_open(at.source, opened)
                            &&& r == mounted(opened)
                        }
                }
            };
        assert(at.reg.filesystems[i].may_probe(at.w, c));
        if c is No {
            assert(reader_passes(at.reg, at.w, i));
            lemma_readers(at, i + 1, r, rest);
        } else {
            let opened = choose|opened: VfsResult<DynFs>|
                {
                    &&& #[trigger] at.reg.filesystems[i].may_open(at.source, opened)
                    &&& r == mounted(opened)
                };
            assert(at.reg.filesystems[i].may_open(at.source, opened));
            assert(reader_settles(at.reg, at.w, at.source, i, r));
        }
    }
}

/// Resolving a volume of the scan is resolving it one level deeper.
spec fn deepens(at: Scan, depth: int) -> bool {
    forall|child: DynSource, c: VfsResult<Option<DynFs>>| #[trigger]
        (at.k)(child, c) ==> finds(at.reg, child, depth + 1, c)
}

proof fn lemma_volumes(
    at: Scan,
    sys: &Box<dyn VolumeSystem>,
    n: int,
    j: int,
    depth: int,
    r: VfsResult<Option<DynFs>>,
    rest: bool,
)
    requires
        0 <= j <= n,
        deepens(at, depth),
        volumes_scan(at, sys, n, j, r, rest),
        volumes_find_nothing(at.reg, sys, j, depth),
    ensures
        first_volume_settles(at.reg, sys, n, depth, r) || (rest && volumes_find_nothing(
            at.reg,
            sys,
            n,
            depth,
        )),
    decreases n - j,
{
    if j < n {
        let opened = choose|opened: VfsResult<DynSource>|
            {
                &&& #[trigger] sys.may_open_volume(j as usize, opened)
                &&& match opened {
                    Err(e) => r == Err::<Option<DynFs>, VfsError>(e),
                    Ok(sub) => exists|c: VfsResult<Option<DynFs>>|
                        {
                            &&& #[trigger] (at.k)(sub, c)
                            &&& match c {
                                Ok(None) => volumes_scan(at, sys, n, j + 1, r, rest),
                                _ => r == c,
                            }
                        },
                }
            };
        match opened {
            Err(e) => {
                assert(sys.may_open_volume(j as usize, Err(e)));
                assert(volume_settles(at.reg, sys, j, depth, r));
            },
            Ok(sub) => {
                let c = choose|c: VfsResult<Option<DynFs>>|
                    {
                        &&& #[trigger] (at.k)(sub, c)
                        &&& match c {
                            Ok(None) => volumes_scan(at, sys, n, j + 1, r, rest),
                            _ => r == c,
                        }
                    };
                assert(sys.may_open_volume(j as usize, Ok(sub)));
                assert(finds(at.reg, sub, depth + 1, c));
                assert(volume_finds(at.reg, sys, j, depth, c));
                if nothing(c) {
                    lemma_volumes(at, sys, n, j + 1, depth, r, rest);
                } else {
                    assert(volume_settles(at.reg, sys, j, depth, r));
                }
            },
        }
    }
}

proof fn lemma_tables(at: Scan, i: int, depth: int, r: VfsResult<Option<DynFs>>, rest: bool)
    requires
        0 <= i <= at.reg.volume_systems.len(),
        deepens(at, depth),
        volume_systems_scan(at, i, r, rest),
        tables_pass(at.reg, at.w, at.source, depth, i),
    ensures
        (exists|m: int|
            0 <= m < at.reg.volume_systems.len() && #[trigger] table_settles(
                at.reg,
                at.w,
                at.source,
                depth,
                m,
                r,
            ) && tables_pass(at.reg, at.w, at.source, depth, m)) || (rest && tables_pass(
            at.reg,
            at.w,
            at.source,
            depth,
            at.reg.volume_systems.len() as int,
        )),
    decreases at.reg.volume_systems.len() - i,
{
    if i < at.reg.volume_systems.len() {
        let p = &at.reg.volume_systems[i];
        let next = volume_systems_scan(at, i + 1, r, rest);
        let c = choose|c: Confidence|
            {
                &&& #[trigger] p.may_probe(at.w, c)
                &&& if c is No {
                    next
                } else {
                    volume_system_scan(at, p, r, next)
                }
            };
        assert(at.reg.volume_systems[i].may_probe(at.w, c));
        if c is No {
            assert(table_passes(at.reg, at.w, at.source, depth, i));
            lemma_tables(at, i + 1, depth, r, rest);
        } else {
            let opened = choose|opened: VfsResult<Box<dyn VolumeSystem>>|
                {
                    &&& #[trigger] p.may_open(at.source, opened)
                    &&& match opened {
                        Err(e) => r == Err::<Option<DynFs>, VfsError>(e),
                        Ok(sys) => exists|v: Seq<VolumeDesc>| #[trigger]
                            sys.may_volumes(v) && volumes_scan(
                                at,
                                &sys,
                                v.len() as int,
                                0,
                                r,
                                next,
                            ),
                    }
                };
            assert(p.may_open(at.source, opened));
            if let Ok(sys) = opened {
                let v = choose|v: Seq<VolumeDesc>| #[trigger]
                    sys.may_volumes(v) && volumes_scan(at, &sys, v.len() as int, 0, r, next);
                lemma_volumes(at, &sys, v.len() as int, 0, depth, r, next);
                assert(opened->Ok_0.may_volumes(v));
                if first_volume_settles(at.reg, &sys, v.len() as int, depth, r) {
                    assert(table_settles(at.reg, at.w, at.source, depth, i, r));
                } else {
                    assert(table_passes(at.reg, at.w, at.source, depth, i));
                    lemma_tables(at, i + 1, depth, r, rest);
                }
            } else {
                assert(table_settles(at.reg, at.w, at.source, depth, i, r));
            }
        }
    }
}

/// What a source may come to: past the eighth level nothing; else the failure of a read of
/// it, or, for a window of it, what the first prober gives that does not come to nothing.
/// Of the volumes of a table the first in its order that does not come to nothing counts.
pub proof fn the_first_volume_that_finds_something_decides(
    reg: RegistryModel,
    source: DynSource,
    depth: int,
    r: VfsResult<Option<DynFs>>,
)
    requires
        finds(reg, source, depth, r),
    ensures
        depth > 8 ==> nothing(r),
        depth <= 8 ==> (r matches Err(e) && unreadable(source, e)) || exists|w: WindowModel|
            scan_window(source, w) && #[trigger] first_prober_settles(reg, w, source, depth, r),
{
    if depth <= 8 {
        let head = choose|head: VfsResult<Seq<u8>>|
            {
                &&& #[trigger] reads_prefix(source, 0, HEAD_LEN as int, head)
                &&& match head {
                    Err(e) => r == Err::<Option<DynFs>, VfsError>(e),
                    Ok(h) => scans(scan_at(reg, source, h, depth), r),
                }
            };
        crate::order_laws::lemma_reads_prefix(source, 0, 4096, head);
        if let Ok(h) = head {
            let at = scan_at(reg, source, h, depth);
            let last = r == Ok::<Option<DynFs>, VfsError>(None);
            lemma_readers(at, 0, r, volume_systems_scan(at, 0, r, last));
            if readers_pass(reg, at.w, reg.filesystems.len() as int) && volume_systems_scan(
                at,
                0,
                r,
                last,
            ) {
                lemma_tables(at, 0, depth, r, last);
            }
            assert(first_prober_settles(reg, at.w, source, depth, r));
        }
    }
}

/// Opening evidence gives the locator of its path, and the filesystem that the first
/// prober finds on it, if one does; it fails only as that does.
pub proof fn opening_evidence_finds_the_first_filesystem(
    vfs: Vfs,
    path: Vec<u8>,
    base: DynSource,
    r: VfsResult<Evidence>,
)
    requires
        call_ensures(Vfs::open, (&vfs, path, base), r),
    ensures
        r matches Ok(ev) ==> ev.root@ == seq![LayerModel::Os { path: path@ }] && exists|
            w: WindowModel,
        |
            scan_window(base, w) && #[trigger] first_prober_settles(
                vfs.probers(),
                w,
                base,
                0,
                Ok(ev.fs),
            ),
        r matches Err(e) ==> unreadable(base, e) || exists|w: WindowModel|
            scan_window(base, w) && #[trigger] first_prober_settles(
                vfs.probers(),
                w,
                base,
                0,
                Err(e),
            ),
{
    match r {
        Ok(ev) => {
            the_first_volume_that_finds_something_decides(vfs.probers(), base, 0, Ok(ev.fs));
        },
        Err(e) => {
            the_first_volume_that_finds_something_decides(vfs.probers(), base, 0, Err(e));
        },
    }
}

/// Where no filesystem prober claims the source, and the first volume system that does
/// has a first volume that does not come to nothing, the outcome is what that volume comes
/// to: the other volumes make no difference.
pub proof fn the_first_volume_is_mounted_first(
    reg: RegistryModel,
    source: DynSource,
    depth: int,
    i: int,
    r: VfsResult<Option<DynFs>>,
)
    requires
        depth <= 8,
        finds(reg, source, depth, r),
        0 <= i < reg.volume_systems.len(),
        forall|j: int, w: WindowModel, c: Confidence|
            0 <= j < reg.filesystems.len() && scan_window(source, w)
                && #[trigger] reg.filesystems[j].may_probe(w, c) ==> c is No,
        forall|j: int, w: WindowModel, c: Confidence|
            0 <= j <= i && scan_window(source, w) && #[trigger] reg.volume_systems[j].may_probe(
                w,
                c,
            ) ==> (c is No <==> j < i),
        forall|opened: VfsResult<Box<dyn VolumeSystem>>, v: Seq<VolumeDesc>|
            #[trigger] reg.volume_systems[i].may_open(source, opened) && opened is Ok
                && #[trigger] opened->Ok_0.may_volumes(v) ==> v.len() > 0 && !volume_finds(
                reg,
                &opened->Ok_0,
                0,
                depth,
                Ok(None),
            ),
    ensures
        ({
            ||| r matches Err(e) && unreadable(source, e)
            ||| r matches Err(e) && reg.volume_systems[i].may_open(source, Err(e))
            ||| exists|opened: VfsResult<Box<dyn VolumeSystem>>|
                {
                    &&& #[trigger] reg.volume_systems[i].may_open(source, opened)
                    &&& opened is Ok
                    &&& volume_settles(reg, &opened->Ok_0, 0, depth, r)
                }
        }),
{
    the_first_volume_that_finds_something_decides(reg, source, depth, r);
    if !(r matches Err(e) && unreadable(source, e)) {
        let w = choose|w: WindowModel|
            scan_window(source, w) && #[trigger] first_prober_settles(reg, w, source, depth, r);
        let p = &reg.volume_systems[i];
        assert forall|m: int| 0 <= m < reg.filesystems.len() implies !#[trigger] reader_settles(
            reg,
            w,
            source,
            m,
            r,
        ) by {
            if reader_settles(reg, w, source, m, r) {
                let c = choose|c: Confidence| #[trigger]
                    reg.filesystems[m].may_probe(w, c) && !(c is No);
                assert(reg.filesystems[m].may_probe(w, c));
            }
        }
        assert(!table_passes(reg, w, source, depth, i)) by {
            if table_passes(reg, w, source, depth, i) {
                let c = choose|c: Confidence| #[trigger]
                    p.may_probe(w, c) && (c is No || exists|
                        opened: VfsResult<Box<dyn VolumeSystem>>,
                        v: Seq<VolumeDesc>,
                    |
                        {
                            &&& #[trigger] p.may_open(source, opened)
                            &&& opened is Ok
                            &&& #[trigger] opened->Ok_0.may_volumes(v)
                            &&& volumes_find_nothing(reg, &opened->Ok_0, v.len() as int, depth)
                        });
                assert(reg.volume_systems[i].may_probe(w, c));
                let (opened, v) = choose|
                    opened: VfsResult<Box<dyn VolumeSystem>>,
                    v: Seq<VolumeDesc>,
                |
                    {
                        &&& #[trigger] p.may_open(source, opened)
                        &&& opened is Ok
                        &&& #[trigger] opened->Ok_0.may_volumes(v)
                        &&& volumes_find_nothing(reg, &opened->Ok_0, v.len() as int, depth)
                    };
                assert(reg.volume_systems[i].may_open(source, opened));
                assert(volume_finds(reg, &opened->Ok_0, 0, depth, Ok(None)));
            }
        }
        let m = choose|m: int|
            0 <= m < reg.volume_systems.len() && #[trigger] table_settles(
                reg,
                w,
                source,
                depth,
                m,
                r,
            ) && tables_pass(reg, w, source, depth, m);
        if m < i {
            let q = &reg.volume_systems[m];
            let c = choose|c: Confidence| #[trigger] q.may_probe(w, c) && !(c is No);
            assert(reg.volume_systems[m].may_probe(w, c));
        } else if m > i {
            assert(table_passes(reg, w, source, depth, i));
        }
        let opened = choose|opened: VfsResult<Box<dyn VolumeSystem>>| #[trigger]
            p.may_open(source, opened) && match opened {
                Err(e) => r == Err::<Option<DynFs>, VfsError>(e),
                Ok(sys) => exists|v: Seq<VolumeDesc>| #[trigger]
                    sys.may_volumes(v) && first_volume_settles(
                        reg,
                        &sys,
                        v.len() as int,
                        depth,
                        r,
                    ),
            };
        assert(reg.volume_systems[i].may_open(source, opened));
        if let Ok(sys) = opened {
            let v = choose|v: Seq<VolumeDesc>| #[trigger]
                sys.may_volumes(v) && first_volume_settles(reg, &sys, v.len() as int, depth, r);
            assert(opened->Ok_0.may_volumes(v));
            let k = choose|k: int|
                0 <= k < v.len() && volumes_find_nothing(reg, &sys, k, depth)
                    && #[trigger] volume_settles(reg, &sys, k, depth, r);
            if k > 0 {
                assert(volume_finds(reg, &sys, 0, depth, Ok(None)));
            }
        }
    }
}

} // verus!

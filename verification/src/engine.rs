//! The engine: a registry of readers and the resolver that mounts the first
//! filesystem found on a source or on one of its volumes.
//!
//! As in the layer resolver, a stage is a relation between what the probers may answer
//! and the outcome `r`; `rest` says that the stages that follow come to `r`.

use vstd::prelude::*;

use crate::error::{SmallHex, VfsError, VfsResult};
use crate::fs::DynFs;
use crate::partition::{decides, GptProbe, MbrProbe};
use crate::pathspec::{LayerModel, PathSpec};
use crate::registry::{
    Confidence, FileSystemProbe, Registry, RegistryModel, SniffWindow, VolumeSystemProbe,
    WindowModel,
};
use crate::resolver::{read_prefix, reads_prefix, Evidence, MAX_DEPTH};
use crate::source::DynSource;
use crate::text::{ascii, literal, same_bytes};
use crate::volume::{VolumeDesc, VolumeScheme, VolumeSystem};

verus! {

broadcast use vstd::seq::group_seq_axioms;

/// Bytes of a source that the engine sniffs.
pub const HEAD_LEN: usize = 4096;

// ---------------------------------------------------------------------------
// The stages
// ---------------------------------------------------------------------------

/// What a stage works on: the probers, the sniffed source with its window, and what
/// resolving a volume may come to.
pub struct Scan {
    pub reg: RegistryModel,
    pub w: WindowModel,
    pub source: DynSource,
    pub k: spec_fn(DynSource, VfsResult<Option<DynFs>>) -> bool,
}

/// The mount of a source, as an outcome.
pub open spec fn mounted(opened: VfsResult<DynFs>) -> VfsResult<Option<DynFs>> {
    match opened {
        Ok(fs) => Ok(Some(fs)),
        Err(e) => Err(e),
    }
}

/// The filesystem probers from the `i`th on: the first that does not decline mounts.
pub open spec fn filesystems_scan(
    at: Scan,
    i: int,
    r: VfsResult<Option<DynFs>>,
    rest: bool,
) -> bool
    decreases at.reg.filesystems.len() - i,
{
    if i < 0 || i >= at.reg.filesystems.len() {
        rest
    } else {
        exists|c: Confidence|
            {
                &&& #[trigger] at.reg.filesystems[i].may_probe(at.w, c)
                &&& if c is No {
                    filesystems_scan(at, i + 1, r, rest)
                } else {
                    exists|opened: VfsResult<DynFs>|
                        {
                            &&& #[trigger] at.reg.filesystems[i].may_open(at.source, opened)
                            &&& r == mounted(opened)
                        }
                }
            }
    }
}

/// The volumes of an open volume system from the `j`th on: the first that resolves to a
/// filesystem, or fails, decides.
pub open spec fn volumes_scan(
    at: Scan,
    sys: &Box<dyn VolumeSystem>,
    n: int,
    j: int,
    r: VfsResult<Option<DynFs>>,
    rest: bool,
) -> bool
    decreases n - j,
{
    if j < 0 || j >= n {
        rest
    } else {
        exists|opened: VfsResult<DynSource>|
            {
                &&& #[trigger] sys.may_open_volume(j as usize, opened)
                &&& match opened {
                    Err(e) => r == Err::<Option<DynFs>, VfsError>(e),
                    Ok(sub) => exists|c: VfsResult<Option<DynFs>>|
                        {
                            &&& #[trigger] (at.k)(sub, c)
                            &&& match c {
                                Ok(None) => volumes_scan(at, sys, n, j + 1, r, rest),
                                _ => r == c,
                            }
                        },
                }
            }
    }
}

/// A volume-system prober that claimed the source opens it, and its volumes are
/// resolved.
pub open spec fn volume_system_scan(
    at: Scan,
    p: &Box<dyn VolumeSystemProbe>,
    r: VfsResult<Option<DynFs>>,
    rest: bool,
) -> bool {
    exists|opened: VfsResult<Box<dyn VolumeSystem>>|
        {
            &&& #[trigger] p.may_open(at.source, opened)
            &&& match opened {
                Err(e) => r == Err::<Option<DynFs>, VfsError>(e),
                Ok(sys) => exists|v: Seq<VolumeDesc>| #[trigger]
                    sys.may_volumes(v) && volumes_scan(at, &sys, v.len() as int, 0, r, rest),
            }
        }
}

/// The volume-system probers from the `i`th on.
pub open spec fn volume_systems_scan(
    at: Scan,
    i: int,
    r: VfsResult<Option<DynFs>>,
    rest: bool,
) -> bool
    decreases at.reg.volume_systems.len() - i,
{
    if i < 0 || i >= at.reg.volume_systems.len() {
        rest
    } else {
        exists|c: Confidence|
            {
                &&& #[trigger] at.reg.volume_systems[i].may_probe(at.w, c)
                &&& {
                    let next = volume_systems_scan(at, i + 1, r, rest);
                    if c is No {
                        next
                    } else {
                        volume_system_scan(at, &at.reg.volume_systems[i], r, next)
                    }
                }
            }
    }
}

/// The window of a source's head.
pub open spec fn head_window(head: Seq<u8>) -> WindowModel {
    WindowModel { base: 0, bytes: head, total_len: head.len() as u64, tail: Seq::empty() }
}

/// The stages for a source with that head.
pub open spec fn scans(at: Scan, r: VfsResult<Option<DynFs>>) -> bool {
    filesystems_scan(
        at,
        0,
        r,
        volume_systems_scan(at, 0, r, r == Ok::<Option<DynFs>, VfsError>(None)),
    )
}

/// What the stages at `depth` work on.
pub open spec fn scan_at(reg: RegistryModel, source: DynSource, head: Seq<u8>, depth: int) -> Scan
    decreases MAX_DEPTH + 1 - depth, 0int,
    when depth <= MAX_DEPTH
{
    Scan {
        reg,
        w: head_window(head),
        source,
        k: |child: DynSource, c: VfsResult<Option<DynFs>>| finds(reg, child, depth + 1, c),
    }
}

/// Resolving `source` at `depth` may come to `r`: nothing past the depth cap, else
/// what the stages come to for the head of the source.
pub open spec fn finds(
    reg: RegistryModel,
    source: DynSource,
    depth: int,
    r: VfsResult<Option<DynFs>>,
) -> bool
    decreases MAX_DEPTH + 1 - depth, 1int,
{
    if depth > MAX_DEPTH {
        r == Ok::<Option<DynFs>, VfsError>(None)
    } else {
        exists|head: VfsResult<Seq<u8>>|
            {
                &&& #[trigger] reads_prefix(source, 0, HEAD_LEN as int, head)
                &&& match head {
                    Err(e) => r == Err::<Option<DynFs>, VfsError>(e),
                    Ok(h) => scans(scan_at(reg, source, h, depth), r),
                }
            }
    }
}

// ---------------------------------------------------------------------------
// The resolver
// ---------------------------------------------------------------------------

spec fn continues(at: Scan, reg: RegistryModel, source: DynSource, depth: int) -> bool {
    &&& at.reg == reg
    &&& at.source == source
    &&& forall|child: DynSource, c: VfsResult<Option<DynFs>>| #[trigger]
        finds(reg, child, depth + 1, c) ==> (at.k)(child, c)
}

/// The filesystem stage: nothing when every prober declines.
fn scan_filesystems(
    reg: &Registry,
    w: &SniffWindow,
    source: &DynSource,
    Ghost(at): Ghost<Scan>,
) -> (out: VfsResult<Option<DynFs>>)
    requires
        at.reg == reg@,
        at.w == w@,
        at.source == *source,
    ensures
        match out {
            Ok(None) => forall|f: VfsResult<Option<DynFs>>, rest: bool|
                rest ==> #[trigger] filesystems_scan(at, 0, f, rest),
            _ => forall|rest: bool| #[trigger] filesystems_scan(at, 0, out, rest),
        },
{
    let probes = reg.filesystems();
    let mut i: usize = 0;
    while i < probes.len()
        invariant
            0 <= i <= probes.len(),
            probes@ == at.reg.filesystems,
            at.w == w@,
            at.source == *source,
            forall|f: VfsResult<Option<DynFs>>, rest: bool| #[trigger]
                filesystems_scan(at, i as int, f, rest) ==> filesystems_scan(at, 0, f, rest),
        decreases probes.len() - i,
    {
        let c = probes[i].probe(w);
        if c.is_candidate() {
            let opened = probes[i].open(source.clone());
            let ghost answer = opened;
            let out = match opened {
                Ok(fs) => Ok(Some(fs)),
                Err(e) => Err(e),
            };
            proof {
                assert(at.reg.filesystems[i as int].may_open(at.source, answer));
                assert(out == mounted(answer));
                assert forall|rest: bool| #[trigger] filesystems_scan(at, 0, out, rest) by {
                    assert(filesystems_scan(at, i as int, out, rest));
                }
            }
            return out;
        }
        assert forall|f: VfsResult<Option<DynFs>>, rest: bool| #[trigger]
            filesystems_scan(at, i + 1, f, rest) implies filesystems_scan(at, 0, f, rest) by {
            assert(filesystems_scan(at, i as int, f, rest));
        }
        i = i + 1;
    }
    assert forall|f: VfsResult<Option<DynFs>>, rest: bool| rest implies #[trigger]
        filesystems_scan(at, 0, f, rest) by {
        assert(filesystems_scan(at, i as int, f, rest));
    }
    Ok(None)
}

/// Open the volume system that prober `i` claimed, and resolve its volumes in order.
fn scan_volumes(
    reg: &Registry,
    i: usize,
    source: &DynSource,
    depth: usize,
    Ghost(at): Ghost<Scan>,
) -> (out: VfsResult<Option<DynFs>>)
    requires
        i < reg@.volume_systems.len(),
        depth <= MAX_DEPTH,
        continues(at, reg@, *source, depth as int),
    ensures
        match out {
            Ok(None) => forall|f: VfsResult<Option<DynFs>>, rest: bool|
                rest ==> #[trigger] volume_system_scan(
                    at,
                    &reg@.volume_systems[i as int],
                    f,
                    rest,
                ),
            _ => forall|rest: bool| #[trigger]
                volume_system_scan(at, &reg@.volume_systems[i as int], out, rest),
        },
    decreases MAX_DEPTH + 1 - depth, 1int,
{
    let p = &reg.volume_systems()[i];
    let sys = match p.open(source.clone()) {
        Err(e) => {
            return Err(e);
        },
        Ok(sys) => sys,
    };
    let n: usize = sys.volumes().len();
    let mut j: usize = 0;
    while j < n
        invariant
            0 <= j <= n,
            depth <= MAX_DEPTH,
            continues(at, reg@, *source, depth as int),
            p == reg@.volume_systems[i as int],
            forall|f: VfsResult<Option<DynFs>>, rest: bool| #[trigger]
                volumes_scan(at, &sys, n as int, j as int, f, rest) ==> volume_system_scan(
                    at,
                    p,
                    f,
                    rest,
                ),
        decreases n - j,
    {
        let sub = match sys.open_volume(j) {
            Err(e) => {
                let out: VfsResult<Option<DynFs>> = Err(e);
                assert(sys.may_open_volume((j as int) as usize, Err(e)));
                assert forall|rest: bool| #[trigger] volume_system_scan(at, p, out, rest) by {
                    assert(volumes_scan(at, &sys, n as int, j as int, out, rest));
                }
                return out;
            },
            Ok(sub) => sub,
        };
        let found = resolve(reg, sub, depth + 1);
        assert(sys.may_open_volume((j as int) as usize, Ok(sub)));
        assert((at.k)(sub, found));
        match found {
            Ok(None) => {},
            _ => {
                assert forall|rest: bool| #[trigger] volume_system_scan(at, p, found, rest) by {
                    assert(volumes_scan(at, &sys, n as int, j as int, found, rest));
                }
                return found;
            },
        }
        assert forall|f: VfsResult<Option<DynFs>>, rest: bool| #[trigger]
            volumes_scan(at, &sys, n as int, j + 1, f, rest) implies volume_system_scan(
            at,
            p,
            f,
            rest,
        ) by {
            assert(volumes_scan(at, &sys, n as int, j as int, f, rest));
        }
        j = j + 1;
    }
    assert forall|f: VfsResult<Option<DynFs>>, rest: bool| rest implies #[trigger]
        volume_system_scan(at, p, f, rest) by {
        assert(volumes_scan(at, &sys, n as int, j as int, f, rest));
    }
    Ok(None)
}

/// The volume-system stage: nothing when no volume resolves.
fn scan_volume_systems(
    reg: &Registry,
    w: &SniffWindow,
    source: &DynSource,
    depth: usize,
    Ghost(at): Ghost<Scan>,
) -> (out: VfsResult<Option<DynFs>>)
    requires
        depth <= MAX_DEPTH,
        at.w == w@,
        continues(at, reg@, *source, depth as int),
    ensures
        match out {
            Ok(None) => forall|f: VfsResult<Option<DynFs>>, rest: bool|
                rest ==> #[trigger] volume_systems_scan(at, 0, f, rest),
            _ => forall|rest: bool| #[trigger] volume_systems_scan(at, 0, out, rest),
        },
    decreases MAX_DEPTH + 1 - depth, 2int,
{
    let probes = reg.volume_systems();
    let mut i: usize = 0;
    while i < probes.len()
        invariant
            0 <= i <= probes.len(),
            depth <= MAX_DEPTH,
            at.w == w@,
            continues(at, reg@, *source, depth as int),
            probes@ == reg@.volume_systems,
            forall|f: VfsResult<Option<DynFs>>, rest: bool| #[trigger]
                volume_systems_scan(at, i as int, f, rest) ==> volume_systems_scan(at, 0, f, rest),
        decreases probes.len() - i,
    {
        let c = probes[i].probe(w);
        let ghost p = &reg@.volume_systems[i as int];
        if c.is_candidate() {
            let found = scan_volumes(reg, i, source, depth, Ghost(at));
            match found {
                Ok(None) => {},
                _ => {
                    assert forall|rest: bool| #[trigger]
                        volume_systems_scan(at, 0, found, rest) by {
                        let next = volume_systems_scan(at, i + 1, found, rest);
                        assert(volume_system_scan(at, p, found, next));
                        assert(volume_systems_scan(at, i as int, found, rest));
                    }
                    return found;
                },
            }
        }
        assert forall|f: VfsResult<Option<DynFs>>, rest: bool| #[trigger]
            volume_systems_scan(at, i + 1, f, rest) implies volume_systems_scan(at, 0, f, rest) by {
            if !(c is No) {
                assert(volume_system_scan(at, p, f, true));
            }
            assert(volume_systems_scan(at, i as int, f, rest));
        }
        i = i + 1;
    }
    assert forall|f: VfsResult<Option<DynFs>>, rest: bool| rest implies #[trigger]
        volume_systems_scan(at, 0, f, rest) by {
        assert(volume_systems_scan(at, i as int, f, rest));
    }
    Ok(None)
}

/// Resolve a source to a filesystem: sniff its head; mount what a filesystem prober
/// recognizes, else descend into the volumes of what a volume-system prober does.
fn resolve(reg: &Registry, source: DynSource, depth: usize) -> (r: VfsResult<Option<DynFs>>)
    ensures
        finds(reg@, source, depth as int, r),
    decreases MAX_DEPTH + 1 - depth, 3int,
{
    if depth > MAX_DEPTH {
        return Ok(None);
    }
    let head = match read_prefix(&source, 0, HEAD_LEN) {
        Err(e) => {
            assert(reads_prefix(source, 0, HEAD_LEN as int, Err(e)));
            return Err(e);
        },
        Ok(head) => head,
    };
    let window = SniffWindow::new(0, head.as_slice());
    let ghost at = scan_at(reg@, source, head@, depth as int);
    assert(reads_prefix(source, 0, HEAD_LEN as int, Ok(head@)));
    assert(window@ =~= head_window(head@));
    let mounted = scan_filesystems(reg, &window, &source, Ghost(at));
    match mounted {
        Ok(None) => {},
        _ => {
            assert(scans(at, mounted));
            return mounted;
        },
    }
    let in_volume = scan_volume_systems(reg, &window, &source, depth, Ghost(at));
    proof {
        let nothing = in_volume == Ok::<Option<DynFs>, VfsError>(None);
        assert(volume_systems_scan(at, 0, in_volume, nothing));
        assert(filesystems_scan(at, 0, in_volume, true));
        assert(scans(at, in_volume));
    }
    in_volume
}

// ---------------------------------------------------------------------------
// The engine
// ---------------------------------------------------------------------------

/// The engine handle: the reader registry and the resolver.
pub struct Vfs {
    registry: Registry,
}

/// The two probers answer alike.
pub open spec fn answers_as<P: VolumeSystemProbe>(p: &Box<dyn VolumeSystemProbe>, q: P) -> bool {
    &&& forall|s: VolumeScheme| #[trigger] p.may_scheme(s) <==> q.may_scheme(s)
    &&& forall|w: WindowModel, c: Confidence| #[trigger] p.may_probe(w, c) <==> q.may_probe(w, c)
    &&& forall|src: DynSource, r: VfsResult<Box<dyn VolumeSystem>>| #[trigger]
        p.may_open(src, r) <==> q.may_open(src, r)
}

/// The registry of the engine: the filesystem probers, and the two partition tables,
/// the GUID table first.
pub open spec fn is_default_registry(
    reg: RegistryModel,
    filesystems: Seq<Box<dyn FileSystemProbe>>,
) -> bool {
    &&& reg.filesystems == filesystems
    &&& reg.volume_systems.len() == 2
    &&& answers_as(&reg.volume_systems[0], GptProbe)
    &&& answers_as(&reg.volume_systems[1], MbrProbe)
    &&& reg.containers.len() == 0
    &&& reg.encryption.len() == 0
    &&& reg.crypto.len() == 0
    &&& reg.archives.len() == 0
}

/// The registry of every reader: these filesystem probers and the partition tables.
pub fn default_registry(filesystems: Vec<Box<dyn FileSystemProbe>>) -> (r: Registry)
    ensures
        is_default_registry(r@, filesystems@),
{
    let r = Registry::new().with_filesystems(filesystems).volume_system(Box::new(GptProbe));
    assert(answers_as(&r@.volume_systems[0], GptProbe));
    let r = r.volume_system(Box::new(MbrProbe));
    assert(answers_as(&r@.volume_systems[1], MbrProbe));
    r
}

impl Vfs {
    /// The probers of the engine.
    pub closed spec fn probers(&self) -> RegistryModel {
        self.registry@
    }

    /// An engine with every reader registered.
    pub fn new(filesystems: Vec<Box<dyn FileSystemProbe>>) -> (r: Self)
        ensures
            is_default_registry(r.probers(), filesystems@),
    {
        Vfs { registry: default_registry(filesystems) }
    }

    /// Open the evidence at `path`, whose bytes are `base`: mount the first filesystem
    /// found. A source that nothing recognizes gives evidence without a filesystem, not
    /// an error.
    pub fn open(&self, path: Vec<u8>, base: DynSource) -> (r: VfsResult<Evidence>)
        ensures
            match r {
                Ok(ev) => {
                    &&& ev.root@ == seq![LayerModel::Os { path: path@ }]
                    &&& finds(self.probers(), base, 0, Ok(ev.fs))
                },
                Err(e) => finds(self.probers(), base, 0, Err(e)),
            },
    {
        match resolve(&self.registry, base, 0) {
            Ok(fs) => Ok(Evidence { root: PathSpec::os(path), fs }),
            Err(e) => Err(e),
        }
    }
}

// ---------------------------------------------------------------------------
// Recognition
// ---------------------------------------------------------------------------

/// NTFS is recognized by the OEM id of its boot sector.
pub fn ntfs_probe(w: &SniffWindow) -> (c: Confidence)
    ensures
        decides(c, w@.has_magic(3, ascii("NTFS    "@)), "NTFS OEM id"@),
{
    proof {
        reveal_strlit("NTFS    ");
    }
    if w.has_magic(3, literal("NTFS    ")) {
        Confidence::Yes { how: "NTFS OEM id" }
    } else {
        Confidence::No
    }
}

/// The error of an NTFS volume that was recognized and could not be mounted.
pub fn ntfs_mount_error(detail: String) -> (e: VfsError)
    ensures
        e matches VfsError::Decode { layer, offset, detail: d, bytes } && layer@ == "ntfs"@
            && offset == 0 && d@ == detail@ && bytes@.len() == 0,
{
    let none: Vec<u8> = Vec::new();
    VfsError::Decode { layer: "ntfs", offset: 0, detail, bytes: SmallHex::new(none.as_slice()) }
}

/// The lower-case form of an ASCII letter; another byte as it is.
pub open spec fn lower(b: u8) -> u8 {
    if 'A' as u8 <= b <= 'Z' as u8 {
        (b + 32) as u8
    } else {
        b
    }
}

/// The bytes with every ASCII letter in lower case.
pub open spec fn lowered(s: Seq<u8>) -> Seq<u8> {
    Seq::new(s.len(), |i: int| lower(s[i]))
}

fn to_lower(s: &[u8]) -> (r: Vec<u8>)
    ensures
        r@ == lowered(s@),
{
    let mut out: Vec<u8> = Vec::new();
    let mut i: usize = 0;
    while i < s.len()
        invariant
            0 <= i <= s.len(),
            out@.len() == i,
            forall|k: int| 0 <= k < i ==> out@[k] == lower(s@[k]),
        decreases s.len() - i,
    {
        let b: u8 = s[i];
        if 0x41 <= b && b <= 0x5a {
            out.push(b + 32);
        } else {
            out.push(b);
        }
        i = i + 1;
    }
    assert(out@ =~= lowered(s@));
    out
}

/// A file with this extension is the first segment of an EWF image: `e01` or `ex01`,
/// in any case. EWF has many segments and is opened by its path.
pub fn is_ewf(extension: Option<&[u8]>) -> (r: bool)
    ensures
        r == match extension {
            Some(e) => lowered(e@) == ascii("e01"@) || lowered(e@) == ascii("ex01"@),
            None => false,
        },
{
    proof {
        reveal_strlit("e01");
        reveal_strlit("ex01");
    }
    match extension {
        Some(e) => {
            let name = to_lower(e);
            same_bytes(name.as_slice(), literal("e01")) || same_bytes(
                name.as_slice(),
                literal("ex01"),
            )
        },
        None => false,
    }
}

} // verus!

//! The generic layer resolver: sniff a byte source, match a registered prober, and
//! descend container, volume, encryption and archive layers until a filesystem
//! mounts.
//!
//! Each stage of the descent is stated as a relation between what the probers may
//! answer and the outcome. In such a relation `r` is the outcome of the whole
//! resolve, `k` says what resolving a child source may come to, and `rest` says that
//! the stages that follow come to `r`.

use vstd::prelude::*;

use crate::archive::{ArchiveContents, Member};
use crate::encryption::{offers_nothing, DynCredentials, EncryptionLayer, EncryptionScheme};
use crate::error::{VfsError, VfsResult};
use crate::fs::{DynFs, FsKind};
use crate::pathspec::{AddrModel, Layer, LayerModel, NodeAddr, PathSpec};
use crate::registry::{
    ArchiveOpen, Confidence, ContainerDecoder, ContainerFormat, EncryptionProbe, FileSystemProbe,
    Registry, RegistryModel, SniffWindow, VolumeSystemProbe, WindowModel,
};
use crate::source::DynSource;
use crate::volume::{VolumeDesc, VolumeScheme, VolumeSystem};

verus! {

broadcast use vstd::seq::group_seq_axioms;

/// Depth cap on the recursive resolve.
pub const MAX_DEPTH: usize = 8;

/// Bytes read into the head of the sniff window: enough for the deepest magic, the
/// volume descriptor of an optical disc.
pub const SNIFF_CAP: u64 = 128 * 1024;

/// Bytes read into the tail of the sniff window: enough for a disk image's footer.
pub const TAIL_CAP: u64 = 4096;

/// One resolved piece of evidence: its locator and the mounted filesystem, absent for
/// a source that no prober recognized.
pub struct Evidence {
    /// The locator this evidence was opened from.
    pub root: PathSpec,
    /// The mounted read-only filesystem, if detected.
    pub fs: Option<DynFs>,
}

/// One resolved layer stack: the mounted filesystem, its locator, and the byte source
/// it was mounted from with that source's own locator.
pub struct Resolved {
    /// The mounted read-only filesystem.
    pub fs: DynFs,
    /// The full locator, topped by the filesystem layer.
    pub spec: PathSpec,
    /// The byte source the filesystem was mounted from.
    pub source: DynSource,
    /// That source's locator, without the filesystem layer.
    pub source_spec: PathSpec,
}

/// One fully peeled raw byte edge: the innermost source that no packaging layer
/// claims, and its locator.
pub struct ResolvedSource {
    /// The unwrapped raw byte edge.
    pub source: DynSource,
    /// Its locator, topped by the last packaging layer it was peeled through.
    pub spec: PathSpec,
}

// ---------------------------------------------------------------------------
// Sniffing
// ---------------------------------------------------------------------------

/// `n` zero bytes.
pub open spec fn zeros(n: int) -> Seq<u8> {
    Seq::new(n as nat, |i: int| 0u8)
}

/// The first `n` bytes of a buffer; nothing where a source claims more than the
/// buffer holds.
pub open spec fn filled_part(buf: Seq<u8>, n: usize) -> Seq<u8> {
    if n <= buf.len() {
        buf.take(n as int)
    } else {
        Seq::empty()
    }
}

/// Reading at most `len` bytes at `offset` into a zeroed buffer may give `r`.
pub open spec fn reads_prefix(
    source: DynSource,
    offset: u64,
    len: int,
    r: VfsResult<Seq<u8>>,
) -> bool {
    exists|buf: Seq<u8>, got: VfsResult<usize>|
        {
            &&& #[trigger] source.inner.may_read(offset, zeros(len), buf, got)
            &&& buf.len() == len
            &&& r == match got {
                Ok(n) => Ok::<Seq<u8>, VfsError>(filled_part(buf, n)),
                Err(e) => Err(e),
            }
        }
}

/// How many bytes the head takes of a source of `total` bytes; at least one.
pub open spec fn head_len(total: u64) -> int {
    if total == 0 {
        1
    } else if total <= SNIFF_CAP {
        total as int
    } else {
        SNIFF_CAP as int
    }
}

/// How many bytes the tail takes of a source of `total` bytes.
pub open spec fn tail_len(total: u64) -> int {
    if total <= TAIL_CAP {
        total as int
    } else {
        TAIL_CAP as int
    }
}

/// The tail is read once the head is there.
pub open spec fn sniffs_tail(
    source: DynSource,
    total: u64,
    head: Seq<u8>,
    r: VfsResult<WindowModel>,
) -> bool {
    exists|tail: VfsResult<Seq<u8>>|
        {
            &&& #[trigger] reads_prefix(
                source,
                (total - tail_len(total)) as u64,
                tail_len(total),
                tail,
            )
            &&& r == match tail {
                Ok(tail) => Ok::<WindowModel, VfsError>(
                    WindowModel { base: 0, bytes: head, total_len: total, tail },
                ),
                Err(e) => Err(e),
            }
        }
}

/// The head is read first.
pub open spec fn sniffs_head(source: DynSource, total: u64, r: VfsResult<WindowModel>) -> bool {
    exists|head: VfsResult<Seq<u8>>|
        {
            &&& #[trigger] reads_prefix(source, 0, head_len(total), head)
            &&& match head {
                Ok(head) => sniffs_tail(source, total, head, r),
                Err(e) => r == Err::<WindowModel, VfsError>(e),
            }
        }
}

/// Sniffing the source may give the window `r`.
pub open spec fn sniffs(source: DynSource, r: VfsResult<WindowModel>) -> bool {
    exists|total: u64| #[trigger] source.inner.may_len(total) && sniffs_head(source, total, r)
}

/// Read at most `len` bytes at `offset`: the part of a zeroed buffer that was filled.
pub fn read_prefix(source: &DynSource, offset: u64, len: usize) -> (r: VfsResult<Vec<u8>>)
    ensures
        match r {
            Ok(v) => reads_prefix(*source, offset, len as int, Ok(v@)),
            Err(e) => reads_prefix(*source, offset, len as int, Err(e)),
        },
{
    let mut buf: Vec<u8> = vec![0u8; len];
    assert(buf@ =~= zeros(len as int));
    let got = source.inner.read_at(offset, buf.as_mut_slice());
    let ghost filled = buf@;
    match got {
        Err(e) => {
            assert(source.inner.may_read(offset, zeros(len as int), filled, Err(e)));
            Err(e)
        },
        Ok(n) => {
            assert(source.inner.may_read(offset, zeros(len as int), filled, Ok(n)));
            if n <= len {
                buf.truncate(n);
            } else {
                buf.clear();
            }
            assert(buf@ =~= filled_part(filled, n));
            Ok(buf)
        },
    }
}

/// The owned head and tail of a source, and its total length.
pub struct SniffBuffers {
    pub head: Vec<u8>,
    pub tail: Vec<u8>,
    pub total: u64,
}

impl SniffBuffers {
    /// The window over the buffers.
    pub open spec fn model(&self) -> WindowModel {
        WindowModel { base: 0, bytes: self.head@, total_len: self.total, tail: self.tail@ }
    }

    /// The window over the buffers.
    pub fn window<'a>(&'a self) -> (w: SniffWindow<'a>)
        ensures
            w@ == self.model(),
    {
        SniffWindow::with_tail(0, self.head.as_slice(), self.total, self.tail.as_slice())
    }
}

/// Read the head and the tail of a source in two bounded reads.
pub fn read_sniff_buffers(source: &DynSource) -> (r: VfsResult<SniffBuffers>)
    ensures
        match r {
            Ok(b) => sniffs(*source, Ok(b.model())),
            Err(e) => sniffs(*source, Err(e)),
        },
{
    let total: u64 = source.inner.len();
    let cap: usize = if total == 0 {
        1
    } else if total <= SNIFF_CAP {
        total as usize
    } else {
        SNIFF_CAP as usize
    };
    assert(cap as int == head_len(total));
    let head = match read_prefix(source, 0, cap) {
        Err(e) => {
            assert(reads_prefix(*source, 0, head_len(total), Err(e)));
            assert(sniffs_head(*source, total, Err(e)));
            return Err(e);
        },
        Ok(head) => head,
    };
    let tail_cap: u64 = if total <= TAIL_CAP {
        total
    } else {
        TAIL_CAP
    };
    let tail_start: u64 = total - tail_cap;
    assert(tail_cap as int == tail_len(total));
    assert(tail_start == (total - tail_len(total)) as u64);
    assert(reads_prefix(*source, 0, head_len(total), Ok(head@)));
    let tail = match read_prefix(source, tail_start, tail_cap as usize) {
        Err(e) => {
            assert(reads_prefix(
                *source,
                (total - tail_len(total)) as u64,
                tail_len(total),
                Err(e),
            ));
            assert(sniffs_tail(*source, total, head@, Err(e)));
            assert(sniffs_head(*source, total, Err(e)));
            return Err(e);
        },
        Ok(tail) => tail,
    };
    let b = SniffBuffers { head, tail, total };
    assert(reads_prefix(
        *source,
        (total - tail_len(total)) as u64,
        tail_len(total),
        Ok(b.tail@),
    ));
    assert(sniffs_tail(*source, total, b.head@, Ok(b.model())));
    assert(sniffs_head(*source, total, Ok(b.model())));
    Ok(b)
}

// ---------------------------------------------------------------------------
// The stages
// ---------------------------------------------------------------------------

/// What a stage of the descent works on: the probers, the sniffed source with its
/// window and its locator, and what resolving a child source may come to.
#[verifier::reject_recursive_types(T)]
pub struct Site<T> {
    pub reg: RegistryModel,
    pub w: WindowModel,
    pub source: DynSource,
    pub spec: Seq<LayerModel>,
    pub k: spec_fn(DynSource, Seq<LayerModel>, VfsResult<Option<T>>) -> bool,
}

/// A child source is resolved under one more layer: what it comes to is the outcome,
/// unless it comes to nothing; then what follows decides.
pub open spec fn child_decides<T>(
    at: Site<T>,
    child: DynSource,
    layer: LayerModel,
    r: VfsResult<Option<T>>,
    rest: bool,
) -> bool {
    exists|c: VfsResult<Option<T>>|
        {
            &&& #[trigger] (at.k)(child, at.spec.push(layer), c)
            &&& match c {
                Ok(None) => rest,
                _ => r == c,
            }
        }
}

/// The filesystem layer at the empty path.
pub open spec fn fs_layer(kind: FsKind) -> LayerModel {
    LayerModel::Fs { kind, at: AddrModel::Path(Seq::empty()) }
}

/// A filesystem prober that claimed the source mounts it.
pub open spec fn mounts(
    p: &Box<dyn FileSystemProbe>,
    source: DynSource,
    spec: Seq<LayerModel>,
    r: VfsResult<Option<Resolved>>,
) -> bool {
    exists|opened: VfsResult<DynFs>|
        {
            &&& #[trigger] p.may_open(source, opened)
            &&& match opened {
                Err(e) => r == Err::<Option<Resolved>, VfsError>(e),
                Ok(fs) => exists|kind: FsKind|
                    {
                        &&& #[trigger] p.may_kind(kind)
                        &&& r matches Ok(Some(out))
                        &&& out.fs == fs
                        &&& out.spec@ == spec.push(fs_layer(kind))
                        &&& out.source == source
                        &&& out.source_spec@ == spec
                    },
            }
        }
}

/// The filesystem probers from the `i`th on: the first that does not decline mounts.
pub open spec fn filesystems_from(
    at: Site<Resolved>,
    i: int,
    r: VfsResult<Option<Resolved>>,
    rest: bool,
) -> bool
    decreases at.reg.filesystems.len() - i,
{
    if i < 0 || i >= at.reg.filesystems.len() {
        rest
    } else {
        exists|c: Confidence|
            {
                &&& #[trigger] at.reg.filesystems[i].may_probe(at.w, c)
                &&& if c is No {
                    filesystems_from(at, i + 1, r, rest)
                } else {
                    mounts(&at.reg.filesystems[i], at.source, at.spec, r)
                }
            }
    }
}

/// The volumes of an open volume system from the `j`th on, each resolved in turn.
pub open spec fn volumes_from(
    at: Site<Resolved>,
    p: &Box<dyn VolumeSystemProbe>,
    sys: &Box<dyn VolumeSystem>,
    n: int,
    j: int,
    r: VfsResult<Option<Resolved>>,
    rest: bool,
) -> bool
    decreases n - j,
{
    if j < 0 || j >= n {
        rest
    } else {
        exists|opened: VfsResult<DynSource>|
            {
                &&& #[trigger] sys.may_open_volume(j as usize, opened)
                &&& match opened {
                    Err(e) => r == Err::<Option<Resolved>, VfsError>(e),
                    Ok(sub) => exists|scheme: VolumeScheme|
                        {
                            &&& #[trigger] p.may_scheme(scheme)
                            &&& child_decides(
                                at,
                                sub,
                                LayerModel::Volume { scheme, index: j as usize, guid: None },
                                r,
                                volumes_from(at, p, sys, n, j + 1, r, rest),
                            )
                        },
                }
            }
    }
}

/// A volume-system prober that claimed the source opens it, and its volumes are
/// resolved.
pub open spec fn volume_system_opens(
    at: Site<Resolved>,
    p: &Box<dyn VolumeSystemProbe>,
    r: VfsResult<Option<Resolved>>,
    rest: bool,
) -> bool {
    exists|opened: VfsResult<Box<dyn VolumeSystem>>|
        {
            &&& #[trigger] p.may_open(at.source, opened)
            &&& match opened {
                Err(e) => r == Err::<Option<Resolved>, VfsError>(e),
                Ok(sys) => exists|v: Seq<VolumeDesc>| #[trigger]
                    sys.may_volumes(v) && volumes_from(at, p, &sys, v.len() as int, 0, r, rest),
            }
        }
}

/// The volume-system probers from the `i`th on.
pub open spec fn volume_systems_from(
    at: Site<Resolved>,
    i: int,
    r: VfsResult<Option<Resolved>>,
    rest: bool,
) -> bool
    decreases at.reg.volume_systems.len() - i,
{
    if i < 0 || i >= at.reg.volume_systems.len() {
        rest
    } else {
        exists|c: Confidence|
            {
                &&& #[trigger] at.reg.volume_systems[i].may_probe(at.w, c)
                &&& {
                    let next = volume_systems_from(at, i + 1, r, rest);
                    if c is No {
                        next
                    } else {
                        volume_system_opens(at, &at.reg.volume_systems[i], r, next)
                    }
                }
            }
    }
}

/// A decrypted source is resolved under the layer of its scheme.
pub open spec fn plaintext_decides(
    at: Site<Resolved>,
    p: &Box<dyn EncryptionProbe>,
    plain: DynSource,
    r: VfsResult<Option<Resolved>>,
    rest: bool,
) -> bool {
    exists|scheme: EncryptionScheme|
        {
            &&& #[trigger] p.may_scheme(scheme)
            &&& child_decides(at, plain, LayerModel::Encryption { scheme }, r, rest)
        }
}

/// An identified scheme is opened and decrypted; a failure of either is the outcome.
pub open spec fn signature_decrypts(
    at: Site<Resolved>,
    p: &Box<dyn EncryptionProbe>,
    creds: DynCredentials,
    r: VfsResult<Option<Resolved>>,
    rest: bool,
) -> bool {
    exists|opened: VfsResult<Box<dyn EncryptionLayer>>|
        {
            &&& #[trigger] p.may_open(at.source, opened)
            &&& match opened {
                Err(e) => r == Err::<Option<Resolved>, VfsError>(e),
                Ok(layer) => exists|d: VfsResult<DynSource>|
                    {
                        &&& #[trigger] layer.may_decrypt(creds, d)
                        &&& match d {
                            Err(e) => r == Err::<Option<Resolved>, VfsError>(e),
                            Ok(plain) => plaintext_decides(at, p, plain, r, rest),
                        }
                    },
            }
        }
}

/// The encryption probers from the `i`th on. A definite match is decrypted at once; a
/// possible one only joins `attempts`, for the last stage.
pub open spec fn signatures_from(
    at: Site<Resolved>,
    creds: DynCredentials,
    i: int,
    attempts: Seq<usize>,
    r: VfsResult<Option<Resolved>>,
    rest: spec_fn(Seq<usize>) -> bool,
) -> bool
    decreases at.reg.encryption.len() - i,
{
    if i < 0 || i >= at.reg.encryption.len() {
        rest(attempts)
    } else {
        exists|c: Confidence|
            {
                &&& #[trigger] at.reg.encryption[i].may_probe(at.w, c)
                &&& match c {
                    Confidence::Yes { .. } => signature_decrypts(
                        at,
                        &at.reg.encryption[i],
                        creds,
                        r,
                        signatures_from(at, creds, i + 1, attempts, r, rest),
                    ),
                    Confidence::Maybe => signatures_from(
                        at,
                        creds,
                        i + 1,
                        attempts.push(i as usize),
                        r,
                        rest,
                    ),
                    Confidence::No => signatures_from(at, creds, i + 1, attempts, r, rest),
                }
            }
    }
}

/// The recorded possible schemes from the `j`th on. A failed decryption is no
/// identification and falls through; failing to construct the layer is the outcome.
pub open spec fn attempts_from(
    at: Site<Resolved>,
    creds: DynCredentials,
    attempts: Seq<usize>,
    j: int,
    r: VfsResult<Option<Resolved>>,
) -> bool
    decreases attempts.len() - j,
{
    if j < 0 || j >= attempts.len() {
        r == Ok::<Option<Resolved>, VfsError>(None)
    } else {
        let p = &at.reg.encryption[attempts[j] as int];
        exists|opened: VfsResult<Box<dyn EncryptionLayer>>|
            {
                &&& #[trigger] p.may_open(at.source, opened)
                &&& match opened {
                    Err(e) => r == Err::<Option<Resolved>, VfsError>(e),
                    Ok(layer) => exists|d: VfsResult<DynSource>|
                        {
                            &&& #[trigger] layer.may_decrypt(creds, d)
                            &&& {
                                let next = attempts_from(at, creds, attempts, j + 1, r);
                                match d {
                                    Err(_) => next,
                                    Ok(plain) => plaintext_decides(at, p, plain, r, next),
                                }
                            }
                        },
                }
            }
    }
}

/// A container decoder that claimed the source decodes it, and the payload is
/// resolved.
pub open spec fn container_decodes<T>(
    at: Site<T>,
    p: &Box<dyn ContainerDecoder>,
    r: VfsResult<Option<T>>,
    rest: bool,
) -> bool {
    exists|opened: VfsResult<DynSource>|
        {
            &&& #[trigger] p.may_open(at.source, opened)
            &&& match opened {
                Err(e) => r == Err::<Option<T>, VfsError>(e),
                Ok(payload) => exists|format: ContainerFormat|
                    {
                        &&& #[trigger] p.may_format(format)
                        &&& child_decides(at, payload, LayerModel::Container { format }, r, rest)
                    },
            }
        }
}

/// The container decoders from the `i`th on.
pub open spec fn containers_from<T>(
    at: Site<T>,
    i: int,
    r: VfsResult<Option<T>>,
    rest: bool,
) -> bool
    decreases at.reg.containers.len() - i,
{
    if i < 0 || i >= at.reg.containers.len() {
        rest
    } else {
        exists|c: Confidence|
            {
                &&& #[trigger] at.reg.containers[i].may_probe(at.w, c)
                &&& {
                    let next = containers_from(at, i + 1, r, rest);
                    if c is No {
                        next
                    } else {
                        container_decodes(at, &at.reg.containers[i], r, next)
                    }
                }
            }
    }
}

/// The members of an archive from the `j`th on, each resolved in turn.
pub open spec fn members_from<T>(
    at: Site<T>,
    members: Seq<Member>,
    j: int,
    r: VfsResult<Option<T>>,
    rest: bool,
) -> bool
    decreases members.len() - j,
{
    if j < 0 || j >= members.len() {
        rest
    } else {
        child_decides(
            at,
            members[j].source,
            LayerModel::Archive { member: Some(j as usize) },
            r,
            members_from(at, members, j + 1, r, rest),
        )
    }
}

/// An archive peeler that claimed the source opens it, and its stream or members are
/// resolved.
pub open spec fn archive_peels<T>(
    at: Site<T>,
    p: &Box<dyn ArchiveOpen>,
    r: VfsResult<Option<T>>,
    rest: bool,
) -> bool {
    exists|opened: VfsResult<ArchiveContents>|
        {
            &&& #[trigger] p.may_open(at.source, opened)
            &&& match opened {
                Err(e) => r == Err::<Option<T>, VfsError>(e),
                Ok(ArchiveContents::Stream(inner)) => child_decides(
                    at,
                    inner,
                    LayerModel::Archive { member: None },
                    r,
                    rest,
                ),
                Ok(ArchiveContents::Members(members)) => members_from(at, members@, 0, r, rest),
            }
        }
}

/// The archive peelers from the `i`th on.
pub open spec fn archives_from<T>(
    at: Site<T>,
    i: int,
    r: VfsResult<Option<T>>,
    rest: bool,
) -> bool
    decreases at.reg.archives.len() - i,
{
    if i < 0 || i >= at.reg.archives.len() {
        rest
    } else {
        exists|c: Confidence|
            {
                &&& #[trigger] at.reg.archives[i].may_probe(at.w, c)
                &&& {
                    let next = archives_from(at, i + 1, r, rest);
                    if c is No {
                        next
                    } else {
                        archive_peels(at, &at.reg.archives[i], r, next)
                    }
                }
            }
    }
}

/// The packaging layers: containers first, then archives.
pub open spec fn packaging<T>(at: Site<T>, r: VfsResult<Option<T>>, rest: bool) -> bool {
    containers_from(at, 0, r, archives_from(at, 0, r, rest))
}

/// The last two stages: packaging, then the recorded possible schemes.
pub open spec fn after_signatures(
    at: Site<Resolved>,
    creds: DynCredentials,
    r: VfsResult<Option<Resolved>>,
) -> spec_fn(Seq<usize>) -> bool {
    |attempts: Seq<usize>| packaging(at, r, attempts_from(at, creds, attempts, 0, r))
}

/// The whole descent of a sniffed source: filesystems, volume systems, identified
/// encryption, packaging, and only then the possible encryption schemes.
pub open spec fn descends(
    at: Site<Resolved>,
    creds: DynCredentials,
    r: VfsResult<Option<Resolved>>,
) -> bool {
    filesystems_from(
        at,
        0,
        r,
        volume_systems_from(
            at,
            0,
            r,
            signatures_from(at, creds, 0, Seq::empty(), r, after_signatures(at, creds, r)),
        ),
    )
}

/// The site of a source at nesting level `depth` in a resolve.
pub open spec fn resolve_site(
    reg: RegistryModel,
    creds: DynCredentials,
    w: WindowModel,
    source: DynSource,
    spec: Seq<LayerModel>,
    depth: int,
) -> Site<Resolved>
    decreases MAX_DEPTH + 1 - depth, 0int,
    when depth <= MAX_DEPTH
{
    Site {
        reg,
        w,
        source,
        spec,
        k: |s: DynSource, sp: Seq<LayerModel>, c: VfsResult<Option<Resolved>>|
            resolves(reg, creds, s, sp, depth + 1, c),
    }
}

/// Resolving `source`, located at `spec`, at nesting level `depth` may come to `r`.
pub open spec fn resolves(
    reg: RegistryModel,
    creds: DynCredentials,
    source: DynSource,
    spec: Seq<LayerModel>,
    depth: int,
    r: VfsResult<Option<Resolved>>,
) -> bool
    decreases MAX_DEPTH + 1 - depth, 1int,
{
    if depth > MAX_DEPTH {
        r == Ok::<Option<Resolved>, VfsError>(None)
    } else {
        exists|w: VfsResult<WindowModel>|
            {
                &&& #[trigger] sniffs(source, w)
                &&& match w {
                    Err(e) => r == Err::<Option<Resolved>, VfsError>(e),
                    Ok(w) => descends(
                        resolve_site(reg, creds, w, source, spec, depth),
                        creds,
                        r,
                    ),
                }
            }
    }
}

/// A source that no packaging layer claims is its own terminal.
pub open spec fn is_terminal(
    r: VfsResult<Option<ResolvedSource>>,
    source: DynSource,
    spec: Seq<LayerModel>,
) -> bool {
    &&& r matches Ok(Some(out))
    &&& out.source == source
    &&& out.spec@ == spec
}

/// The site of a source at nesting level `depth` in a peel.
pub open spec fn peel_site(
    reg: RegistryModel,
    w: WindowModel,
    source: DynSource,
    spec: Seq<LayerModel>,
    depth: int,
) -> Site<ResolvedSource>
    decreases MAX_DEPTH + 1 - depth, 0int,
    when depth <= MAX_DEPTH
{
    Site {
        reg,
        w,
        source,
        spec,
        k: |s: DynSource, sp: Seq<LayerModel>, c: VfsResult<Option<ResolvedSource>>|
            peels(reg, s, sp, depth + 1, c),
    }
}

/// Peeling `source`, located at `spec`, at nesting level `depth` may come to `r`.
pub open spec fn peels(
    reg: RegistryModel,
    source: DynSource,
    spec: Seq<LayerModel>,
    depth: int,
    r: VfsResult<Option<ResolvedSource>>,
) -> bool
    decreases MAX_DEPTH + 1 - depth, 1int,
{
    if depth > MAX_DEPTH {
        r == Ok::<Option<ResolvedSource>, VfsError>(None)
    } else {
        exists|w: VfsResult<WindowModel>|
            {
                &&& #[trigger] sniffs(source, w)
                &&& match w {
                    Err(e) => r == Err::<Option<ResolvedSource>, VfsError>(e),
                    Ok(w) => packaging(
                        peel_site(reg, w, source, spec, depth),
                        r,
                        is_terminal(r, source, spec),
                    ),
                }
            }
    }
}

// ---------------------------------------------------------------------------
// Resolving
// ---------------------------------------------------------------------------

/// The site is that of `source`, and resolving one level deeper is what its children
/// come to.
spec fn continues(
    at: Site<Resolved>,
    reg: RegistryModel,
    creds: DynCredentials,
    source: DynSource,
    spec: Seq<LayerModel>,
    depth: int,
) -> bool {
    &&& at.reg == reg
    &&& at.source == source
    &&& at.spec == spec
    &&& forall|s: DynSource, sp: Seq<LayerModel>, c: VfsResult<Option<Resolved>>| #[trigger]
        resolves(reg, creds, s, sp, depth + 1, c) ==> (at.k)(s, sp, c)
}

fn mount(p: &Box<dyn FileSystemProbe>, source: &DynSource, spec: &PathSpec) -> (r: VfsResult<
    Option<Resolved>,
>)
    ensures
        mounts(p, *source, spec@, r),
        r != Ok::<Option<Resolved>, VfsError>(None),
{
    match p.open(source.clone()) {
        Err(e) => Err(e),
        Ok(fs) => {
            let kind = p.kind();
            let at: Vec<Vec<u8>> = Vec::new();
            assert(crate::pathspec::components(at@) =~= Seq::<Seq<u8>>::empty());
            let layer = Layer::Fs { kind, at: NodeAddr::Path(at) };
            Ok(
                Some(
                    Resolved {
                        fs,
                        spec: spec.clone().push(layer),
                        source: source.clone(),
                        source_spec: spec.clone(),
                    },
                ),
            )
        },
    }
}

/// The filesystem stage: nothing when every prober declines.
fn try_filesystems(
    reg: &Registry,
    w: &SniffWindow,
    source: &DynSource,
    spec: &PathSpec,
    Ghost(at): Ghost<Site<Resolved>>,
) -> (out: VfsResult<Option<Resolved>>)
    requires
        at.reg == reg@,
        at.w == w@,
        at.source == *source,
        at.spec == spec@,
    ensures
        match out {
            Ok(None) => forall|f: VfsResult<Option<Resolved>>, rest: bool|
                rest ==> #[trigger] filesystems_from(at, 0, f, rest),
            _ => forall|rest: bool| #[trigger] filesystems_from(at, 0, out, rest),
        },
{
    let probes = reg.filesystems();
    let mut i: usize = 0;
    while i < probes.len()
        invariant
            0 <= i <= probes.len(),
            probes@ == at.reg.filesystems,
            at.w == w@,
            at.source == *source,
            at.spec == spec@,
            forall|f: VfsResult<Option<Resolved>>, rest: bool| #[trigger]
                filesystems_from(at, i as int, f, rest) ==> filesystems_from(at, 0, f, rest),
        decreases probes.len() - i,
    {
        let c = probes[i].probe(w);
        if c.is_candidate() {
            let out = mount(&probes[i], source, spec);
            assert forall|rest: bool| #[trigger] filesystems_from(at, 0, out, rest) by {
                assert(filesystems_from(at, i as int, out, rest));
            }
            return out;
        }
        assert forall|f: VfsResult<Option<Resolved>>, rest: bool| #[trigger]
            filesystems_from(at, i + 1, f, rest) implies filesystems_from(at, 0, f, rest) by {
            assert(filesystems_from(at, i as int, f, rest));
        }
        i = i + 1;
    }
    assert forall|f: VfsResult<Option<Resolved>>, rest: bool| rest implies #[trigger]
        filesystems_from(at, 0, f, rest) by {
        assert(filesystems_from(at, i as int, f, rest));
    }
    Ok(None)
}

/// Open the volume system that prober `i` claimed, and resolve its volumes in order.
fn open_volumes(
    reg: &Registry,
    creds: &DynCredentials,
    i: usize,
    source: &DynSource,
    spec: &PathSpec,
    depth: usize,
    Ghost(at): Ghost<Site<Resolved>>,
) -> (out: VfsResult<Option<Resolved>>)
    requires
        i < reg@.volume_systems.len(),
        depth <= MAX_DEPTH,
        continues(at, reg@, *creds, *source, spec@, depth as int),
    ensures
        match out {
            Ok(None) => forall|f: VfsResult<Option<Resolved>>, rest: bool|
                rest ==> #[trigger] volume_system_opens(
                    at,
                    &reg@.volume_systems[i as int],
                    f,
                    rest,
                ),
            _ => forall|rest: bool| #[trigger]
                volume_system_opens(at, &reg@.volume_systems[i as int], out, rest),
        },
    decreases MAX_DEPTH + 1 - depth, 1int,
{
    let p = &reg.volume_systems()[i];
    let sys = match p.open(source.clone()) {
        Err(e) => {
            return Err(e);
        },
        Ok(sys) => sys,
    };
    let n: usize = sys.volumes().len();
    let mut j: usize = 0;
    while j < n
        invariant
            0 <= j <= n,
            depth <= MAX_DEPTH,
            continues(at, reg@, *creds, *source, spec@, depth as int),
            p == reg@.volume_systems[i as int],
            forall|f: VfsResult<Option<Resolved>>, rest: bool| #[trigger]
                volumes_from(at, p, &sys, n as int, j as int, f, rest) ==> volume_system_opens(
                    at,
                    p,
                    f,
                    rest,
                ),
        decreases n - j,
    {
        let sub = match sys.open_volume(j) {
            Err(e) => {
                let out: VfsResult<Option<Resolved>> = Err(e);
                assert forall|rest: bool| #[trigger] volume_system_opens(at, p, out, rest) by {
                    assert(volumes_from(at, p, &sys, n as int, j as int, out, rest));
                }
                return out;
            },
            Ok(sub) => sub,
        };
        let scheme = p.scheme();
        let layer = Layer::Volume { scheme, index: j, guid: None };
        let ghost child = spec@.push(layer@);
        let found = resolve(reg, creds, sub, spec.clone().push(layer), depth + 1);
        assert((at.k)(sub, child, found));
        match found {
            Ok(None) => {},
            _ => {
                assert forall|rest: bool| #[trigger] volume_system_opens(at, p, found, rest) by {
                    assert(volumes_from(at, p, &sys, n as int, j as int, found, rest));
                }
                return found;
            },
        }
        assert forall|f: VfsResult<Option<Resolved>>, rest: bool| #[trigger]
            volumes_from(at, p, &sys, n as int, j + 1, f, rest) implies volume_system_opens(
            at,
            p,
            f,
            rest,
        ) by {
            assert(volumes_from(at, p, &sys, n as int, j as int, f, rest));
        }
        j = j + 1;
    }
    assert forall|f: VfsResult<Option<Resolved>>, rest: bool| rest implies #[trigger]
        volume_system_opens(at, p, f, rest) by {
        assert(volumes_from(at, p, &sys, n as int, j as int, f, rest));
    }
    Ok(None)
}

/// The volume-system stage: nothing when no volume resolves.
fn try_volume_systems(
    reg: &Registry,
    w: &SniffWindow,
    creds: &DynCredentials,
    source: &DynSource,
    spec: &PathSpec,
    depth: usize,
    Ghost(at): Ghost<Site<Resolved>>,
) -> (out: VfsResult<Option<Resolved>>)
    requires
        depth <= MAX_DEPTH,
        at.w == w@,
        continues(at, reg@, *creds, *source, spec@, depth as int),
    ensures
        match out {
            Ok(None) => forall|f: VfsResult<Option<Resolved>>, rest: bool|
                rest ==> #[trigger] volume_systems_from(at, 0, f, rest),
            _ => forall|rest: bool| #[trigger] volume_systems_from(at, 0, out, rest),
        },
    decreases MAX_DEPTH + 1 - depth, 2int,
{
    let probes = reg.volume_systems();
    let mut i: usize = 0;
    while i < probes.len()
        invariant
            0 <= i <= probes.len(),
            depth <= MAX_DEPTH,
            at.w == w@,
            continues(at, reg@, *creds, *source, spec@, depth as int),
            probes@ == reg@.volume_systems,
            forall|f: VfsResult<Option<Resolved>>, rest: bool| #[trigger]
                volume_systems_from(at, i as int, f, rest) ==> volume_systems_from(at, 0, f, rest),
        decreases probes.len() - i,
    {
        let c = probes[i].probe(w);
        let ghost p = &reg@.volume_systems[i as int];
        if c.is_candidate() {
            let found = open_volumes(reg, creds, i, source, spec, depth, Ghost(at));
            match found {
                Ok(None) => {},
                _ => {
                    assert forall|rest: bool| #[trigger]
                        volume_systems_from(at, 0, found, rest) by {
                        let next = volume_systems_from(at, i + 1, found, rest);
                        assert(volume_system_opens(at, p, found, next));
                        assert(volume_systems_from(at, i as int, found, rest));
                    }
                    return found;
                },
            }
        }
        assert forall|f: VfsResult<Option<Resolved>>, rest: bool| #[trigger]
            volume_systems_from(at, i + 1, f, rest) implies volume_systems_from(at, 0, f, rest) by {
            if !(c is No) {
                assert(volume_system_opens(at, p, f, true));
            }
            assert(volume_systems_from(at, i as int, f, rest));
        }
        i = i + 1;
    }
    assert forall|f: VfsResult<Option<Resolved>>, rest: bool| rest implies #[trigger]
        volume_systems_from(at, 0, f, rest) by {
        assert(volume_systems_from(at, i as int, f, rest));
    }
    Ok(None)
}

/// Resolve a decrypted source under the layer of the scheme of prober `i`.
fn resolve_plaintext(
    reg: &Registry,
    creds: &DynCredentials,
    i: usize,
    plain: DynSource,
    spec: &PathSpec,
    depth: usize,
    Ghost(at): Ghost<Site<Resolved>>,
) -> (out: VfsResult<Option<Resolved>>)
    requires
        i < reg@.encryption.len(),
        depth <= MAX_DEPTH,
        continues(at, reg@, *creds, at.source, spec@, depth as int),
    ensures
        match out {
            Ok(None) => forall|f: VfsResult<Option<Resolved>>, rest: bool|
                rest ==> #[trigger] plaintext_decides(
                    at,
                    &reg@.encryption[i as int],
                    plain,
                    f,
                    rest,
                ),
            _ => forall|rest: bool| #[trigger]
                plaintext_decides(at, &reg@.encryption[i as int], plain, out, rest),
        },
    decreases MAX_DEPTH + 1 - depth, 1int,
{
    let p = &reg.encryption_layers()[i];
    let scheme = p.scheme();
    let layer = Layer::Encryption { scheme };
    let ghost child = spec@.push(layer@);
    let found = resolve(reg, creds, plain, spec.clone().push(layer), depth + 1);
    assert((at.k)(plain, child, found));
    assert(p.may_scheme(scheme));
    found
}

/// The stage of identified encryption: a definite match is decrypted and resolved, a
/// possible one is recorded for the last stage. A definite match that fails to
/// decrypt is an error, never passed over.
fn descend_signature_encryption(
    reg: &Registry,
    w: &SniffWindow,
    creds: &DynCredentials,
    source: &DynSource,
    spec: &PathSpec,
    depth: usize,
    attempts: &mut Vec<usize>,
    Ghost(at): Ghost<Site<Resolved>>,
) -> (out: VfsResult<Option<Resolved>>)
    requires
        depth <= MAX_DEPTH,
        old(attempts)@.len() == 0,
        at.w == w@,
        continues(at, reg@, *creds, *source, spec@, depth as int),
    ensures
        match out {
            Ok(None) => {
                &&& forall|j: int|
                    0 <= j < final(attempts)@.len() ==> #[trigger] final(attempts)@[j]
                        < reg@.encryption.len()
                &&& forall|f: VfsResult<Option<Resolved>>, rest: spec_fn(Seq<usize>) -> bool|
                    rest(final(attempts)@) ==> #[trigger] signatures_from(
                        at,
                        *creds,
                        0,
                        Seq::empty(),
                        f,
                        rest,
                    )
            },
            _ => forall|rest: spec_fn(Seq<usize>) -> bool| #[trigger]
                signatures_from(at, *creds, 0, Seq::empty(), out, rest),
        },
    decreases MAX_DEPTH + 1 - depth, 2int,
{
    let probes = reg.encryption_layers();
    let mut i: usize = 0;
    assert(attempts@ =~= Seq::<usize>::empty());
    while i < probes.len()
        invariant
            0 <= i <= probes.len(),
            depth <= MAX_DEPTH,
            at.w == w@,
            continues(at, reg@, *creds, *source, spec@, depth as int),
            probes@ == reg@.encryption,
            forall|j: int| 0 <= j < attempts@.len() ==> #[trigger] attempts@[j] < probes.len(),
            forall|f: VfsResult<Option<Resolved>>, rest: spec_fn(Seq<usize>) -> bool| #[trigger]
                signatures_from(at, *creds, i as int, attempts@, f, rest) ==> signatures_from(
                    at,
                    *creds,
                    0,
                    Seq::empty(),
                    f,
                    rest,
                ),
        decreases probes.len() - i,
    {
        let ghost before = attempts@;
        let ghost q = &reg@.encryption[i as int];
        let c = probes[i].probe(w);
        match c {
            Confidence::Yes { .. } => {
                let layer = match probes[i].open(source.clone()) {
                    Err(e) => {
                        let out: VfsResult<Option<Resolved>> = Err(e);
                        assert forall|rest: spec_fn(Seq<usize>) -> bool| #[trigger]
                            signatures_from(at, *creds, 0, Seq::empty(), out, rest) by {
                            assert(signatures_from(at, *creds, i as int, before, out, rest));
                        }
                        return out;
                    },
                    Ok(layer) => layer,
                };
                let plain = match layer.open(creds) {
                    Err(e) => {
                        let out: VfsResult<Option<Resolved>> = Err(e);
                        assert forall|rest: spec_fn(Seq<usize>) -> bool| #[trigger]
                            signatures_from(at, *creds, 0, Seq::empty(), out, rest) by {
                            assert(signatures_from(at, *creds, i as int, before, out, rest));
                        }
                        return out;
                    },
                    Ok(plain) => plain,
                };
                let found = resolve_plaintext(reg, creds, i, plain, spec, depth, Ghost(at));
                match found {
                    Ok(None) => {},
                    _ => {
                        assert forall|rest: spec_fn(Seq<usize>) -> bool| #[trigger]
                            signatures_from(at, *creds, 0, Seq::empty(), found, rest) by {
                            let next = signatures_from(at, *creds, i + 1, before, found, rest);
                            assert(plaintext_decides(at, q, plain, found, next));
                            assert(signature_decrypts(at, q, *creds, found, next));
                            assert(signatures_from(at, *creds, i as int, before, found, rest));
                        }
                        return found;
                    },
                }
                assert forall|f: VfsResult<Option<Resolved>>| #[trigger]
                    signature_decrypts(at, q, *creds, f, true) by {
                    assert(plaintext_decides(at, q, plain, f, true));
                }
            },
            Confidence::Maybe => {
                attempts.push(i);
            },
            Confidence::No => {},
        }
        assert forall|f: VfsResult<Option<Resolved>>, rest: spec_fn(Seq<usize>) -> bool| #[trigger]
            signatures_from(at, *creds, i + 1, attempts@, f, rest) implies signatures_from(
            at,
            *creds,
            0,
            Seq::empty(),
            f,
            rest,
        ) by {
            if c is Yes {
                assert(signature_decrypts(at, q, *creds, f, true));
            }
            assert(signatures_from(at, *creds, i as int, before, f, rest));
        }
        i = i + 1;
    }
    assert forall|f: VfsResult<Option<Resolved>>, rest: spec_fn(Seq<usize>) -> bool|
        rest(attempts@) implies #[trigger] signatures_from(
        at,
        *creds,
        0,
        Seq::empty(),
        f,
        rest,
    ) by {
        assert(signatures_from(at, *creds, i as int, attempts@, f, rest));
    }
    Ok(None)
}

/// The last stage: each recorded possible scheme is constructed and tried. A failed
/// decryption only says that it was not this scheme, or not these credentials.
fn descend_credential_attempt_encryption(
    reg: &Registry,
    creds: &DynCredentials,
    source: &DynSource,
    spec: &PathSpec,
    depth: usize,
    attempts: &Vec<usize>,
    Ghost(at): Ghost<Site<Resolved>>,
) -> (out: VfsResult<Option<Resolved>>)
    requires
        depth <= MAX_DEPTH,
        continues(at, reg@, *creds, *source, spec@, depth as int),
        forall|j: int|
            0 <= j < attempts@.len() ==> #[trigger] attempts@[j] < reg@.encryption.len(),
    ensures
        attempts_from(at, *creds, attempts@, 0, out),
    decreases MAX_DEPTH + 1 - depth, 2int,
{
    let probes = reg.encryption_layers();
    let mut j: usize = 0;
    while j < attempts.len()
        invariant
            0 <= j <= attempts.len(),
            depth <= MAX_DEPTH,
            continues(at, reg@, *creds, *source, spec@, depth as int),
            probes@ == reg@.encryption,
            forall|j: int| 0 <= j < attempts@.len() ==> #[trigger] attempts@[j] < probes.len(),
            forall|f: VfsResult<Option<Resolved>>| #[trigger]
                attempts_from(at, *creds, attempts@, j as int, f) ==> attempts_from(
                    at,
                    *creds,
                    attempts@,
                    0,
                    f,
                ),
        decreases attempts.len() - j,
    {
        let i: usize = attempts[j];
        let ghost q = &reg@.encryption[i as int];
        let layer = match probes[i].open(source.clone()) {
            Err(e) => {
                let out: VfsResult<Option<Resolved>> = Err(e);
                assert(attempts_from(at, *creds, attempts@, j as int, out));
                return out;
            },
            Ok(layer) => layer,
        };
        let decrypted = layer.open(creds);
        match decrypted {
            Err(_) => {
                assert forall|f: VfsResult<Option<Resolved>>| #[trigger]
                    attempts_from(at, *creds, attempts@, j + 1, f) implies attempts_from(
                    at,
                    *creds,
                    attempts@,
                    0,
                    f,
                ) by {
                    assert(attempts_from(at, *creds, attempts@, j as int, f));
                }
            },
            Ok(plain) => {
                let found = resolve_plaintext(reg, creds, i, plain, spec, depth, Ghost(at));
                match found {
                    Ok(None) => {},
                    _ => {
                        proof {
                            let next = attempts_from(at, *creds, attempts@, j + 1, found);
                            assert(plaintext_decides(at, q, plain, found, next));
                            assert(attempts_from(at, *creds, attempts@, j as int, found));
                        }
                        return found;
                    },
                }
                assert forall|f: VfsResult<Option<Resolved>>| #[trigger]
                    attempts_from(at, *creds, attempts@, j + 1, f) implies attempts_from(
                    at,
                    *creds,
                    attempts@,
                    0,
                    f,
                ) by {
                    assert(plaintext_decides(at, q, plain, f, true));
                    assert(attempts_from(at, *creds, attempts@, j as int, f));
                }
            },
        }
        j = j + 1;
    }
    let out: VfsResult<Option<Resolved>> = Ok(None);
    assert(attempts_from(at, *creds, attempts@, j as int, out));
    out
}

/// Try each container decoder, then each archive peeler; for each that claims the
/// source, hand the peeled child, with its extended locator, to `recurse`, and give
/// back the first outcome that is not nothing.
fn descend_packaging<T, K: Fn(DynSource, PathSpec) -> VfsResult<Option<T>>>(
    reg: &Registry,
    w: &SniffWindow,
    source: &DynSource,
    spec: &PathSpec,
    recurse: K,
    Ghost(at): Ghost<Site<T>>,
) -> (out: VfsResult<Option<T>>)
    requires
        at.reg == reg@,
        at.w == w@,
        at.source == *source,
        at.spec == spec@,
        forall|s: DynSource, sp: PathSpec| #[trigger] call_requires(recurse, (s, sp)),
        forall|s: DynSource, sp: PathSpec, c: VfsResult<Option<T>>| #[trigger]
            call_ensures(recurse, (s, sp), c) ==> (at.k)(s, sp@, c),
    ensures
        match out {
            Ok(None) => forall|f: VfsResult<Option<T>>, rest: bool|
                rest ==> #[trigger] packaging(at, f, rest),
            _ => forall|rest: bool| #[trigger] packaging(at, out, rest),
        },
{
    let decoded = try_containers(reg, w, source, spec, &recurse, Ghost(at));
    match decoded {
        Ok(None) => {},
        _ => {
            assert forall|rest: bool| #[trigger] packaging(at, decoded, rest) by {
                let next = archives_from(at, 0, decoded, rest);
                assert(containers_from(at, 0, decoded, next));
            }
            return decoded;
        },
    }
    let peeled = try_archives(reg, w, source, spec, &recurse, Ghost(at));
    match peeled {
        Ok(None) => {
            assert forall|f: VfsResult<Option<T>>, rest: bool| rest implies #[trigger] packaging(
                at,
                f,
                rest,
            ) by {
                assert(archives_from(at, 0, f, rest));
                assert(containers_from(at, 0, f, true));
            }
        },
        _ => {
            assert forall|rest: bool| #[trigger] packaging(at, peeled, rest) by {
                assert(archives_from(at, 0, peeled, rest));
                assert(containers_from(at, 0, peeled, true));
            }
        },
    }
    peeled
}

fn try_containers<T, K: Fn(DynSource, PathSpec) -> VfsResult<Option<T>>>(
    reg: &Registry,
    w: &SniffWindow,
    source: &DynSource,
    spec: &PathSpec,
    recurse: &K,
    Ghost(at): Ghost<Site<T>>,
) -> (out: VfsResult<Option<T>>)
    requires
        at.reg == reg@,
        at.w == w@,
        at.source == *source,
        at.spec == spec@,
        forall|s: DynSource, sp: PathSpec| #[trigger] call_requires(*recurse, (s, sp)),
        forall|s: DynSource, sp: PathSpec, c: VfsResult<Option<T>>| #[trigger]
            call_ensures(*recurse, (s, sp), c) ==> (at.k)(s, sp@, c),
    ensures
        match out {
            Ok(None) => forall|f: VfsResult<Option<T>>, rest: bool|
                rest ==> #[trigger] containers_from(at, 0, f, rest),
            _ => forall|rest: bool| #[trigger] containers_from(at, 0, out, rest),
        },
{
    let probes = reg.containers();
    let mut i: usize = 0;
    while i < probes.len()
        invariant
            0 <= i <= probes.len(),
            at.reg == reg@,
            at.w == w@,
            at.source == *source,
            at.spec == spec@,
            probes@ == reg@.containers,
            forall|s: DynSource, sp: PathSpec| #[trigger] call_requires(*recurse, (s, sp)),
            forall|s: DynSource, sp: PathSpec, c: VfsResult<Option<T>>| #[trigger]
                call_ensures(*recurse, (s, sp), c) ==> (at.k)(s, sp@, c),
            forall|f: VfsResult<Option<T>>, rest: bool| #[trigger]
                containers_from(at, i as int, f, rest) ==> containers_from(at, 0, f, rest),
        decreases probes.len() - i,
    {
        let ghost q = &reg@.containers[i as int];
        let c = probes[i].probe(w);
        if c.is_candidate() {
            let payload = match probes[i].open(source.clone()) {
                Err(e) => {
                    let out: VfsResult<Option<T>> = Err(e);
                    assert forall|rest: bool| #[trigger] containers_from(at, 0, out, rest) by {
                        let next = containers_from(at, i + 1, out, rest);
                        assert(container_decodes(at, q, out, next));
                        assert(containers_from(at, i as int, out, rest));
                    }
                    return out;
                },
                Ok(payload) => payload,
            };
            let format = probes[i].format();
            let layer = Layer::Container { format };
            let ghost child = spec@.push(layer@);
            let found = recurse(payload, spec.clone().push(layer));
            assert((at.k)(payload, child, found));
            match found {
                Ok(None) => {},
                _ => {
                    assert forall|rest: bool| #[trigger] containers_from(at, 0, found, rest) by {
                        let next = containers_from(at, i + 1, found, rest);
                        assert(container_decodes(at, q, found, next));
                        assert(containers_from(at, i as int, found, rest));
                    }
                    return found;
                },
            }
            assert forall|f: VfsResult<Option<T>>| #[trigger]
                container_decodes(at, q, f, true) by {}
        }
        assert forall|f: VfsResult<Option<T>>, rest: bool| #[trigger]
            containers_from(at, i + 1, f, rest) implies containers_from(at, 0, f, rest) by {
            if !(c is No) {
                assert(container_decodes(at, q, f, true));
            }
            assert(containers_from(at, i as int, f, rest));
        }
        i = i + 1;
    }
    assert forall|f: VfsResult<Option<T>>, rest: bool| rest implies #[trigger] containers_from(
        at,
        0,
        f,
        rest,
    ) by {
        assert(containers_from(at, i as int, f, rest));
    }
    Ok(None)
}

/// Resolve the members of an archive in order.
fn try_members<T, K: Fn(DynSource, PathSpec) -> VfsResult<Option<T>>>(
    members: &Vec<Member>,
    spec: &PathSpec,
    recurse: &K,
    Ghost(at): Ghost<Site<T>>,
) -> (out: VfsResult<Option<T>>)
    requires
        at.spec == spec@,
        forall|s: DynSource, sp: PathSpec| #[trigger] call_requires(*recurse, (s, sp)),
        forall|s: DynSource, sp: PathSpec, c: VfsResult<Option<T>>| #[trigger]
            call_ensures(*recurse, (s, sp), c) ==> (at.k)(s, sp@, c),
    ensures
        match out {
            Ok(None) => forall|f: VfsResult<Option<T>>, rest: bool|
                rest ==> #[trigger] members_from(at, members@, 0, f, rest),
            _ => forall|rest: bool| #[trigger] members_from(at, members@, 0, out, rest),
        },
{
    let mut j: usize = 0;
    while j < members.len()
        invariant
            0 <= j <= members.len(),
            at.spec == spec@,
            forall|s: DynSource, sp: PathSpec| #[trigger] call_requires(*recurse, (s, sp)),
            forall|s: DynSource, sp: PathSpec, c: VfsResult<Option<T>>| #[trigger]
                call_ensures(*recurse, (s, sp), c) ==> (at.k)(s, sp@, c),
            forall|f: VfsResult<Option<T>>, rest: bool| #[trigger]
                members_from(at, members@, j as int, f, rest) ==> members_from(
                    at,
                    members@,
                    0,
                    f,
                    rest,
                ),
        decreases members.len() - j,
    {
        let layer = Layer::Archive { member: Some(j) };
        let ghost child = spec@.push(layer@);
        let found = recurse(members[j].source.clone(), spec.clone().push(layer));
        assert((at.k)(members@[j as int].source, child, found));
        match found {
            Ok(None) => {},
            _ => {
                assert forall|rest: bool| #[trigger]
                    members_from(at, members@, 0, found, rest) by {
                    assert(members_from(at, members@, j as int, found, rest));
                }
                return found;
            },
        }
        assert forall|f: VfsResult<Option<T>>, rest: bool| #[trigger]
            members_from(at, members@, j + 1, f, rest) implies members_from(
            at,
            members@,
            0,
            f,
            rest,
        ) by {
            assert(members_from(at, members@, j as int, f, rest));
        }
        j = j + 1;
    }
    assert forall|f: VfsResult<Option<T>>, rest: bool| rest implies #[trigger] members_from(
        at,
        members@,
        0,
        f,
        rest,
    ) by {
        assert(members_from(at, members@, j as int, f, rest));
    }
    Ok(None)
}

/// Open the archive that prober `i` claimed, and resolve its stream or its members.
fn open_archive<T, K: Fn(DynSource, PathSpec) -> VfsResult<Option<T>>>(
    p: &Box<dyn ArchiveOpen>,
    source: &DynSource,
    spec: &PathSpec,
    recurse: &K,
    Ghost(at): Ghost<Site<T>>,
) -> (out: VfsResult<Option<T>>)
    requires
        at.source == *source,
        at.spec == spec@,
        forall|s: DynSource, sp: PathSpec| #[trigger] call_requires(*recurse, (s, sp)),
        forall|s: DynSource, sp: PathSpec, c: VfsResult<Option<T>>| #[trigger]
            call_ensures(*recurse, (s, sp), c) ==> (at.k)(s, sp@, c),
    ensures
        match out {
            Ok(None) => forall|f: VfsResult<Option<T>>, rest: bool|
                rest ==> #[trigger] archive_peels(at, p, f, rest),
            _ => forall|rest: bool| #[trigger] archive_peels(at, p, out, rest),
        },
{
    match p.open(source.clone()) {
        Err(e) => Err(e),
        Ok(ArchiveContents::Stream(inner)) => {
            let layer = Layer::Archive { member: None };
            let ghost child = spec@.push(layer@);
            let found = recurse(inner, spec.clone().push(layer));
            assert((at.k)(inner, child, found));
            found
        },
        Ok(ArchiveContents::Members(members)) => {
            let found = try_members(&members, spec, recurse, Ghost(at));
            assert forall|f: VfsResult<Option<T>>, rest: bool|
                members_from(at, members@, 0, f, rest) implies #[trigger] archive_peels(
                at,
                p,
                f,
                rest,
            ) by {}
            found
        },
    }
}

fn try_archives<T, K: Fn(DynSource, PathSpec) -> VfsResult<Option<T>>>(
    reg: &Registry,
    w: &SniffWindow,
    source: &DynSource,
    spec: &PathSpec,
    recurse: &K,
    Ghost(at): Ghost<Site<T>>,
) -> (out: VfsResult<Option<T>>)
    requires
        at.reg == reg@,
        at.w == w@,
        at.source == *source,
        at.spec == spec@,
        forall|s: DynSource, sp: PathSpec| #[trigger] call_requires(*recurse, (s, sp)),
        forall|s: DynSource, sp: PathSpec, c: VfsResult<Option<T>>| #[trigger]
            call_ensures(*recurse, (s, sp), c) ==> (at.k)(s, sp@, c),
    ensures
        match out {
            Ok(None) => forall|f: VfsResult<Option<T>>, rest: bool|
                rest ==> #[trigger] archives_from(at, 0, f, rest),
            _ => forall|rest: bool| #[trigger] archives_from(at, 0, out, rest),
        },
{
    let probes = reg.archives();
    let mut i: usize = 0;
    while i < probes.len()
        invariant
            0 <= i <= probes.len(),
            at.reg == reg@,
            at.w == w@,
            at.source == *source,
            at.spec == spec@,
            probes@ == reg@.archives,
            forall|s: DynSource, sp: PathSpec| #[trigger] call_requires(*recurse, (s, sp)),
            forall|s: DynSource, sp: PathSpec, c: VfsResult<Option<T>>| #[trigger]
                call_ensures(*recurse, (s, sp), c) ==> (at.k)(s, sp@, c),
            forall|f: VfsResult<Option<T>>, rest: bool| #[trigger]
                archives_from(at, i as int, f, rest) ==> archives_from(at, 0, f, rest),
        decreases probes.len() - i,
    {
        let ghost q = &reg@.archives[i as int];
        let c = probes[i].probe(w);
        if c.is_candidate() {
            let found = open_archive(&probes[i], source, spec, recurse, Ghost(at));
            match found {
                Ok(None) => {},
                _ => {
                    assert forall|rest: bool| #[trigger] archives_from(at, 0, found, rest) by {
                        let next = archives_from(at, i + 1, found, rest);
                        assert(archive_peels(at, q, found, next));
                        assert(archives_from(at, i as int, found, rest));
                    }
                    return found;
                },
            }
        }
        assert forall|f: VfsResult<Option<T>>, rest: bool| #[trigger]
            archives_from(at, i + 1, f, rest) implies archives_from(at, 0, f, rest) by {
            if !(c is No) {
                assert(archive_peels(at, q, f, true));
            }
            assert(archives_from(at, i as int, f, rest));
        }
        i = i + 1;
    }
    assert forall|f: VfsResult<Option<T>>, rest: bool| rest implies #[trigger] archives_from(
        at,
        0,
        f,
        rest,
    ) by {
        assert(archives_from(at, i as int, f, rest));
    }
    Ok(None)
}

/// Resolve a source to a filesystem.
fn resolve(
    reg: &Registry,
    creds: &DynCredentials,
    source: DynSource,
    spec: PathSpec,
    depth: usize,
) -> (r: VfsResult<Option<Resolved>>)
    ensures
        resolves(reg@, *creds, source, spec@, depth as int, r),
    decreases MAX_DEPTH + 1 - depth, 3int,
{
    if depth > MAX_DEPTH {
        return Ok(None);
    }
    let buffers = match read_sniff_buffers(&source) {
        Err(e) => {
            assert(sniffs(source, Err(e)));
            return Err(e);
        },
        Ok(buffers) => buffers,
    };
    let window = buffers.window();
    let ghost at = resolve_site(reg@, *creds, window@, source, spec@, depth as int);
    assert(sniffs(source, Ok(window@)));
    let mounted = try_filesystems(reg, &window, &source, &spec, Ghost(at));
    match mounted {
        Ok(None) => {},
        _ => {
            assert(descends(at, *creds, mounted));
            return mounted;
        },
    }
    let in_volume = try_volume_systems(reg, &window, creds, &source, &spec, depth, Ghost(at));
    match in_volume {
        Ok(None) => {},
        _ => {
            proof {
                let tail = signatures_from(
                    at,
                    *creds,
                    0,
                    Seq::empty(),
                    in_volume,
                    after_signatures(at, *creds, in_volume),
                );
                assert(volume_systems_from(at, 0, in_volume, tail));
                assert(filesystems_from(at, 0, in_volume, true));
                assert(descends(at, *creds, in_volume));
            }
            return in_volume;
        },
    }
    let mut attempts: Vec<usize> = Vec::new();
    let decrypted = descend_signature_encryption(
        reg,
        &window,
        creds,
        &source,
        &spec,
        depth,
        &mut attempts,
        Ghost(at),
    );
    match decrypted {
        Ok(None) => {},
        _ => {
            proof {
                let tail = after_signatures(at, *creds, decrypted);
                assert(signatures_from(at, *creds, 0, Seq::empty(), decrypted, tail));
                assert(volume_systems_from(at, 0, decrypted, true));
                assert(filesystems_from(at, 0, decrypted, true));
                assert(descends(at, *creds, decrypted));
            }
            return decrypted;
        },
    }
    let recurse = |s: DynSource, sp: PathSpec| -> (c: VfsResult<Option<Resolved>>)
        ensures
            (at.k)(s, sp@, c),
        { resolve(reg, creds, s, sp, depth + 1) };
    let unpacked = descend_packaging(reg, &window, &source, &spec, recurse, Ghost(at));
    match unpacked {
        Ok(None) => {},
        _ => {
            proof {
                let tail = after_signatures(at, *creds, unpacked);
                let last = attempts_from(at, *creds, attempts@, 0, unpacked);
                assert(packaging(at, unpacked, last));
                assert(tail(attempts@));
                assert(signatures_from(at, *creds, 0, Seq::empty(), unpacked, tail));
                assert(volume_systems_from(at, 0, unpacked, true));
                assert(filesystems_from(at, 0, unpacked, true));
                assert(descends(at, *creds, unpacked));
            }
            return unpacked;
        },
    }
    let out = descend_credential_attempt_encryption(
        reg,
        creds,
        &source,
        &spec,
        depth,
        &attempts,
        Ghost(at),
    );
    proof {
        let tail = after_signatures(at, *creds, out);
        assert(packaging(at, out, true));
        assert(tail(attempts@));
        assert(signatures_from(at, *creds, 0, Seq::empty(), out, tail));
        assert(volume_systems_from(at, 0, out, true));
        assert(filesystems_from(at, 0, out, true));
        assert(descends(at, *creds, out));
    }
    out
}

/// Peel the packaging layers of a source.
fn peel(reg: &Registry, source: DynSource, spec: PathSpec, depth: usize) -> (r: VfsResult<
    Option<ResolvedSource>,
>)
    ensures
        peels(reg@, source, spec@, depth as int, r),
    decreases MAX_DEPTH + 1 - depth,
{
    if depth > MAX_DEPTH {
        return Ok(None);
    }
    let buffers = match read_sniff_buffers(&source) {
        Err(e) => {
            assert(sniffs(source, Err(e)));
            return Err(e);
        },
        Ok(buffers) => buffers,
    };
    let window = buffers.window();
    let ghost at = peel_site(reg@, window@, source, spec@, depth as int);
    assert(sniffs(source, Ok(window@)));
    let recurse = |s: DynSource, sp: PathSpec| -> (c: VfsResult<Option<ResolvedSource>>)
        ensures
            (at.k)(s, sp@, c),
        { peel(reg, s, sp, depth + 1) };
    let unpacked = descend_packaging(reg, &window, &source, &spec, recurse, Ghost(at));
    match unpacked {
        Ok(None) => {},
        _ => {
            assert(packaging(at, unpacked, is_terminal(unpacked, source, spec@)));
            return unpacked;
        },
    }
    let ghost whole = spec@;
    let out: VfsResult<Option<ResolvedSource>> = Ok(Some(ResolvedSource { source, spec }));
    assert(packaging(at, out, is_terminal(out, source, whole)));
    out
}

/// The generic layer resolver over a [`Registry`].
pub trait SourceOpen {
    /// Resolving may come to `r`.
    spec fn may_resolve(
        &self,
        creds: DynCredentials,
        source: DynSource,
        spec: Seq<LayerModel>,
        depth: int,
        r: VfsResult<Option<Resolved>>,
    ) -> bool;

    /// Peeling may come to `r`.
    spec fn may_peel(
        &self,
        source: DynSource,
        spec: Seq<LayerModel>,
        depth: int,
        r: VfsResult<Option<ResolvedSource>>,
    ) -> bool;

    /// Resolve a source to a filesystem, supplying no credentials: an identified
    /// encryption layer then fails loudly and a possible one falls through, so an
    /// encrypted volume is neither skipped in silence nor guessed.
    fn open(&self, source: DynSource, spec: PathSpec, depth: usize) -> (r: VfsResult<
        Option<Resolved>,
    >)
        ensures
            exists|none: DynCredentials|
                offers_nothing(none) && #[trigger] self.may_resolve(
                    none,
                    source,
                    spec@,
                    depth as int,
                    r,
                ),
    {
        let none = DynCredentials::none();
        self.open_with_credentials(source, spec, depth, &none)
    }

    /// Resolve a source to a filesystem: sniff it; mount it where a filesystem prober
    /// claims it; else descend into the volumes of a volume system, then through
    /// identified encryption, containers and archives; last of all try the encryption
    /// schemes without a signature, so that a wrong guess never shadows anything.
    /// Nothing when nothing recognizes it. Past the depth cap it gives nothing.
    fn open_with_credentials(
        &self,
        source: DynSource,
        spec: PathSpec,
        depth: usize,
        creds: &DynCredentials,
    ) -> (r: VfsResult<Option<Resolved>>)
        ensures
            self.may_resolve(*creds, source, spec@, depth as int, r),
    ;

    /// Resolve a source to its innermost raw byte edge by peeling containers and
    /// archives only: no filesystem, volume or encryption descent. A source that no
    /// packaging prober claims is its own terminal. Past the depth cap it gives
    /// nothing.
    fn resolve_to_source(&self, source: DynSource, spec: PathSpec, depth: usize) -> (r: VfsResult<
        Option<ResolvedSource>,
    >)
        ensures
            self.may_peel(source, spec@, depth as int, r),
    ;
}

impl SourceOpen for Registry {
    open spec fn may_resolve(
        &self,
        creds: DynCredentials,
        source: DynSource,
        spec: Seq<LayerModel>,
        depth: int,
        r: VfsResult<Option<Resolved>>,
    ) -> bool {
        resolves(self@, creds, source, spec, depth, r)
    }

    open spec fn may_peel(
        &self,
        source: DynSource,
        spec: Seq<LayerModel>,
        depth: int,
        r: VfsResult<Option<ResolvedSource>>,
    ) -> bool {
        peels(self@, source, spec, depth, r)
    }

    fn open_with_credentials(
        &self,
        source: DynSource,
        spec: PathSpec,
        depth: usize,
        creds: &DynCredentials,
    ) -> (r: VfsResult<Option<Resolved>>) {
        resolve(self, creds, source, spec, depth)
    }

    fn resolve_to_source(&self, source: DynSource, spec: PathSpec, depth: usize) -> (r: VfsResult<
        Option<ResolvedSource>,
    >) {
        peel(self, source, spec, depth)
    }
}

} // verus!

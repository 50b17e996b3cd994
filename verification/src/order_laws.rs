//! The order of a descent, said without a descent: each prober of the registry is one
//! attempt at the source, the attempts are in a fixed order, and the first of them that
//! does not come to nothing gives the outcome.
//!
//! What a child source comes to is what resolving it one level deeper comes to, so these
//! laws hold at every level.

use vstd::prelude::*;

use crate::archive::{ArchiveContents, Member};
use crate::encryption::{DynCredentials, EncryptionLayer, EncryptionScheme};
use crate::error::{VfsError, VfsResult};
use crate::fs::{DynFs, FsKind};
use crate::pathspec::{AddrModel, LayerModel};
use crate::registry::{
    Confidence, ContainerFormat, EncryptionProbe, Registry, VolumeSystemProbe, WindowModel,
};
use crate::resolver::{
    after_signatures, archive_peels, archives_from, attempts_from, child_decides,
    container_decodes, containers_from, filesystems_from, is_terminal, members_from, mounts,
    packaging, peels, peel_site, plaintext_decides, reads_prefix, resolve_site, signature_decrypts,
    signatures_from, sniffs, sniffs_head, sniffs_tail, volume_system_opens, volume_systems_from,
    volumes_from, Resolved, ResolvedSource, Site, SourceOpen,
};
use crate::source::DynSource;
use crate::volume::{VolumeDesc, VolumeScheme, VolumeSystem};

verus! {

broadcast use vstd::seq::group_seq_axioms;

// ---------------------------------------------------------------------------
// The window that the probers are shown
// ---------------------------------------------------------------------------

/// Reading the source at `offset` into `n` zeros may leave `got` as what was read.
pub open spec fn may_show(source: DynSource, offset: int, n: int, got: Seq<u8>) -> bool {
    exists|blank: Seq<u8>, filled: Seq<u8>, count: usize|
        {
            &&& #[trigger] source.inner.may_read(offset as u64, blank, filled, Ok(count))
            &&& blank.len() == n
            &&& forall|i: int| 0 <= i < n ==> blank[i] == 0
            &&& filled.len() == n
            &&& got == if count <= n {
                filled.take(count as int)
            } else {
                Seq::empty()
            }
        }
}

/// The window is one of the source: its first 128 KiB and its last 4 KiB, or as much of
/// them as there is.
pub open spec fn window_of(source: DynSource, w: WindowModel) -> bool {
    let total = w.total_len as int;
    let head = if total == 0 {
        1
    } else if total < 131072 {
        total
    } else {
        131072
    };
    let tail = if total < 4096 {
        total
    } else {
        4096
    };
    &&& source.inner.may_len(w.total_len)
    &&& w.base == 0
    &&& may_show(source, 0, head, w.bytes)
    &&& may_show(source, total - tail, tail, w.tail)
}

/// Some read of the source may fail with `e`.
pub open spec fn unreadable(source: DynSource, e: VfsError) -> bool {
    exists|offset: u64, before: Seq<u8>, after: Seq<u8>| #[trigger]
        source.inner.may_read(offset, before, after, Err(e))
}

pub(crate) proof fn lemma_reads_prefix(source: DynSource, offset: u64, len: int, r: VfsResult<Seq<u8>>)
    requires
        reads_prefix(source, offset, len, r),
        len >= 0,
    ensures
        match r {
            Ok(got) => may_show(source, offset as int, len, got),
            Err(e) => unreadable(source, e),
        },
{
    let blank = crate::resolver::zeros(len);
    let (buf, got) = choose|buf: Seq<u8>, got: VfsResult<usize>|
        {
            &&& #[trigger] source.inner.may_read(offset, blank, buf, got)
            &&& buf.len() == len
            &&& r == match got {
                Ok(n) => Ok::<Seq<u8>, VfsError>(crate::resolver::filled_part(buf, n)),
                Err(e) => Err(e),
            }
        };
    if let Ok(n) = got {
        assert(source.inner.may_read((offset as int) as u64, blank, buf, Ok(n)));
    }
}

/// What sniffing a source shows is a window of it, and sniffing fails only as a read does.
pub proof fn sniffing_shows_the_head_and_the_tail(source: DynSource, r: VfsResult<WindowModel>)
    requires
        sniffs(source, r),
    ensures
        match r {
            Ok(w) => window_of(source, w),
            Err(e) => unreadable(source, e),
        },
{
    let total = choose|total: u64| #[trigger]
        source.inner.may_len(total) && sniffs_head(source, total, r);
    let head_len = crate::resolver::head_len(total);
    let tail_len = crate::resolver::tail_len(total);
    let head = choose|head: VfsResult<Seq<u8>>|
        {
            &&& #[trigger] reads_prefix(source, 0, head_len, head)
            &&& match head {
                Ok(head) => sniffs_tail(source, total, head, r),
                Err(e) => r == Err::<WindowModel, VfsError>(e),
            }
        };
    lemma_reads_prefix(source, 0, head_len, head);
    if let Ok(h) = head {
        let start = (total - tail_len) as u64;
        let tail = choose|tail: VfsResult<Seq<u8>>|
            {
                &&& #[trigger] reads_prefix(source, start, tail_len, tail)
                &&& r == match tail {
                    Ok(tail) => Ok::<WindowModel, VfsError>(
                        WindowModel { base: 0, bytes: h, total_len: total, tail },
                    ),
                    Err(e) => Err(e),
                }
            };
        lemma_reads_prefix(source, start, tail_len, tail);
    }
}

// ---------------------------------------------------------------------------
// The children of an attempt
// ---------------------------------------------------------------------------

/// The child, located one layer further, may come to `c`.
pub open spec fn child_gives<T>(
    at: Site<T>,
    child: DynSource,
    layer: LayerModel,
    c: VfsResult<Option<T>>,
) -> bool {
    (at.k)(child, at.spec.push(layer), c)
}

/// Nothing was found, and nothing failed.
pub open spec fn nothing<T>(r: VfsResult<Option<T>>) -> bool {
    r matches Ok(found) && found is None
}

/// Volume `j` of the system opens as `sub` and is located by its own index.
pub open spec fn volume_child(
    at: Site<Resolved>,
    p: &Box<dyn VolumeSystemProbe>,
    sys: &Box<dyn VolumeSystem>,
    j: int,
    c: VfsResult<Option<Resolved>>,
) -> bool {
    exists|sub: DynSource, scheme: VolumeScheme|
        {
            &&& #[trigger] sys.may_open_volume(j as usize, Ok(sub))
            &&& #[trigger] p.may_scheme(scheme)
            &&& child_gives(
                at,
                sub,
                LayerModel::Volume { scheme, index: j as usize, guid: None },
                c,
            )
        }
}

/// Volume `j` gives the outcome: it fails to open, or what it holds gives it.
pub open spec fn volume_gives(
    at: Site<Resolved>,
    p: &Box<dyn VolumeSystemProbe>,
    sys: &Box<dyn VolumeSystem>,
    j: int,
    r: VfsResult<Option<Resolved>>,
) -> bool {
    &&& !nothing(r)
    &&& {
        ||| volume_child(at, p, sys, j, r)
        ||| exists|e: VfsError| #[trigger]
            sys.may_open_volume(j as usize, Err(e)) && r == Err::<Option<Resolved>, VfsError>(e)
    }
}

/// Member `j` is located by its own index.
pub open spec fn member_child<T>(
    at: Site<T>,
    members: Seq<Member>,
    j: int,
    c: VfsResult<Option<T>>,
) -> bool {
    child_gives(at, members[j].source, LayerModel::Archive { member: Some(j as usize) }, c)
}

/// A scheme is located by its own name, and decrypted with the credentials given.
pub open spec fn plaintext_child(
    at: Site<Resolved>,
    p: &Box<dyn EncryptionProbe>,
    layer: &Box<dyn EncryptionLayer>,
    creds: DynCredentials,
    c: VfsResult<Option<Resolved>>,
) -> bool {
    exists|plain: DynSource, scheme: EncryptionScheme|
        {
            &&& #[trigger] layer.may_decrypt(creds, Ok(plain))
            &&& #[trigger] p.may_scheme(scheme)
            &&& child_gives(at, plain, LayerModel::Encryption { scheme }, c)
        }
}

/// The credentials may fail to decrypt the layer.
pub open spec fn may_refuse(layer: &Box<dyn EncryptionLayer>, creds: DynCredentials) -> bool {
    exists|e: VfsError| #[trigger] layer.may_decrypt(creds, Err(e))
}

// ---------------------------------------------------------------------------
// The attempts
// ---------------------------------------------------------------------------

/// Prober `i` of a kind, in one of its roles. An encryption prober has two: it decrypts
/// what it identifies, and later tries what it only took for possible.
pub enum Attempt {
    Filesystem(int),
    VolumeSystem(int),
    Signature(int),
    Container(int),
    Archive(int),
    Guess(int),
}

/// The place of a role among the others.
pub open spec fn rank(a: Attempt) -> int {
    match a {
        Attempt::Filesystem(_) => 0,
        Attempt::VolumeSystem(_) => 1,
        Attempt::Signature(_) => 2,
        Attempt::Container(_) => 3,
        Attempt::Archive(_) => 4,
        Attempt::Guess(_) => 5,
    }
}

/// The number of the prober.
pub open spec fn number(a: Attempt) -> int {
    match a {
        Attempt::Filesystem(i) => i,
        Attempt::VolumeSystem(i) => i,
        Attempt::Signature(i) => i,
        Attempt::Container(i) => i,
        Attempt::Archive(i) => i,
        Attempt::Guess(i) => i,
    }
}

/// `a` is made before `b`: filesystems, then volume systems, then identified encryption,
/// containers, archives, and last the guesses; within a role in registration order.
pub open spec fn precedes(a: Attempt, b: Attempt) -> bool {
    rank(a) < rank(b) || (rank(a) == rank(b) && number(a) < number(b))
}

/// The registry has the prober.
pub open spec fn registered<T>(at: Site<T>, a: Attempt) -> bool {
    0 <= number(a) < match a {
        Attempt::Filesystem(_) => at.reg.filesystems.len(),
        Attempt::VolumeSystem(_) => at.reg.volume_systems.len(),
        Attempt::Signature(_) => at.reg.encryption.len(),
        Attempt::Container(_) => at.reg.containers.len(),
        Attempt::Archive(_) => at.reg.archives.len(),
        Attempt::Guess(_) => at.reg.encryption.len(),
    }
}

/// Filesystem prober `i` declines.
pub open spec fn filesystem_passes(at: Site<Resolved>, i: int) -> bool {
    exists|c: Confidence| #[trigger] at.reg.filesystems[i].may_probe(at.w, c) && c is No
}

/// Filesystem prober `i` claims the source, and its mount, or the failure of it, is the
/// outcome: the filesystem layer of its kind on top of the source's own locator.
pub open spec fn filesystem_gives(
    at: Site<Resolved>,
    i: int,
    r: VfsResult<Option<Resolved>>,
) -> bool {
    let p = &at.reg.filesystems[i];
    &&& exists|c: Confidence| #[trigger] p.may_probe(at.w, c) && !(c is No)
    &&& exists|opened: VfsResult<DynFs>| #[trigger]
        p.may_open(at.source, opened) && match opened {
            Err(e) => r == Err::<Option<Resolved>, VfsError>(e),
            Ok(fs) => r matches Ok(Some(out)) && out.fs == fs && out.source == at.source
                && out.source_spec@ == at.spec && exists|kind: FsKind| #[trigger]
                p.may_kind(kind) && out.spec@ == at.spec.push(
                    LayerModel::Fs { kind, at: AddrModel::Path(Seq::empty()) },
                ),
        }
}

/// Every one of the `n` volumes comes to nothing.
pub open spec fn volumes_pass(
    at: Site<Resolved>,
    p: &Box<dyn VolumeSystemProbe>,
    sys: &Box<dyn VolumeSystem>,
    n: int,
) -> bool {
    forall|j: int| 0 <= j < n ==> #[trigger] volume_child(at, p, sys, j, Ok(None))
}

/// Of the `n` volumes the first that does not come to nothing gives the outcome.
pub open spec fn first_volume_gives(
    at: Site<Resolved>,
    p: &Box<dyn VolumeSystemProbe>,
    sys: &Box<dyn VolumeSystem>,
    n: int,
    r: VfsResult<Option<Resolved>>,
) -> bool {
    exists|m: int|
        0 <= m < n && volumes_pass(at, p, sys, m) && #[trigger] volume_gives(at, p, sys, m, r)
}

/// Volume-system prober `i` declines, or nothing comes of any of its volumes.
pub open spec fn volume_system_passes(at: Site<Resolved>, i: int) -> bool {
    let p = &at.reg.volume_systems[i];
    exists|c: Confidence| #[trigger]
        p.may_probe(at.w, c) && (c is No || exists|
            opened: VfsResult<Box<dyn VolumeSystem>>,
            v: Seq<VolumeDesc>,
        |
            {
                &&& #[trigger] p.may_open(at.source, opened)
                &&& opened is Ok
                &&& #[trigger] opened->Ok_0.may_volumes(v)
                &&& volumes_pass(at, p, &opened->Ok_0, v.len() as int)
            })
}

/// Volume-system prober `i` claims the source and gives the outcome.
pub open spec fn volume_system_gives(
    at: Site<Resolved>,
    i: int,
    r: VfsResult<Option<Resolved>>,
) -> bool {
    let p = &at.reg.volume_systems[i];
    &&& exists|c: Confidence| #[trigger] p.may_probe(at.w, c) && !(c is No)
    &&& exists|opened: VfsResult<Box<dyn VolumeSystem>>| #[trigger]
        p.may_open(at.source, opened) && match opened {
            Err(e) => r == Err::<Option<Resolved>, VfsError>(e),
            Ok(sys) => exists|v: Seq<VolumeDesc>| #[trigger]
                sys.may_volumes(v) && first_volume_gives(at, p, &sys, v.len() as int, r),
        }
}

/// Encryption prober `i` does not identify the source, or nothing comes of what it
/// decrypts.
pub open spec fn signature_passes(at: Site<Resolved>, creds: DynCredentials, i: int) -> bool {
    let p = &at.reg.encryption[i];
    exists|c: Confidence| #[trigger]
        p.may_probe(at.w, c) && (!(c is Yes) || exists|
            opened: VfsResult<Box<dyn EncryptionLayer>>,
        | #[trigger]
            p.may_open(at.source, opened) && opened is Ok && plaintext_child(
                at,
                p,
                &opened->Ok_0,
                creds,
                Ok(None),
            ))
}

/// Encryption prober `i` identifies the source and gives the outcome: what it decrypts
/// does, or a failure to open or to decrypt it.
pub open spec fn signature_gives(
    at: Site<Resolved>,
    creds: DynCredentials,
    i: int,
    r: VfsResult<Option<Resolved>>,
) -> bool {
    let p = &at.reg.encryption[i];
    &&& exists|c: Confidence| #[trigger] p.may_probe(at.w, c) && c is Yes
    &&& !nothing(r)
    &&& exists|opened: VfsResult<Box<dyn EncryptionLayer>>| #[trigger]
        p.may_open(at.source, opened) && match opened {
            Err(e) => r == Err::<Option<Resolved>, VfsError>(e),
            Ok(layer) => plaintext_child(at, p, &layer, creds, r) || (r matches Err(e)
                && layer.may_decrypt(creds, Err(e))),
        }
}

/// Container decoder `i` declines, or nothing comes of its payload.
pub open spec fn container_passes<T>(at: Site<T>, i: int) -> bool {
    let p = &at.reg.containers[i];
    exists|c: Confidence| #[trigger]
        p.may_probe(at.w, c) && (c is No || exists|payload: DynSource, format: ContainerFormat|
            {
                &&& #[trigger] p.may_open(at.source, Ok(payload))
                &&& #[trigger] p.may_format(format)
                &&& child_gives(at, payload, LayerModel::Container { format }, Ok(None))
            })
}

/// Container decoder `i` claims the source and gives the outcome.
pub open spec fn container_gives<T>(at: Site<T>, i: int, r: VfsResult<Option<T>>) -> bool {
    let p = &at.reg.containers[i];
    &&& exists|c: Confidence| #[trigger] p.may_probe(at.w, c) && !(c is No)
    &&& !nothing(r)
    &&& {
        ||| exists|e: VfsError| #[trigger]
            p.may_open(at.source, Err(e)) && r == Err::<Option<T>, VfsError>(e)
        ||| exists|payload: DynSource, format: ContainerFormat|
            {
                &&& #[trigger] p.may_open(at.source, Ok(payload))
                &&& #[trigger] p.may_format(format)
                &&& child_gives(at, payload, LayerModel::Container { format }, r)
            }
    }
}

/// Every one of the first `n` members comes to nothing.
pub open spec fn members_pass<T>(at: Site<T>, members: Seq<Member>, n: int) -> bool {
    forall|j: int| 0 <= j < n ==> #[trigger] member_child(at, members, j, Ok(None))
}

/// The first member that does not come to nothing gives the outcome.
pub open spec fn first_member_gives<T>(
    at: Site<T>,
    members: Seq<Member>,
    r: VfsResult<Option<T>>,
) -> bool {
    exists|m: int|
        0 <= m < members.len() && members_pass(at, members, m) && #[trigger] member_child(
            at,
            members,
            m,
            r,
        )
}

/// Archive peeler `i` declines, or nothing comes of its stream, or of any of its members.
pub open spec fn archive_passes<T>(at: Site<T>, i: int) -> bool {
    let p = &at.reg.archives[i];
    exists|c: Confidence| #[trigger]
        p.may_probe(at.w, c) && (c is No || exists|opened: VfsResult<ArchiveContents>| #[trigger]
            p.may_open(at.source, opened) && match opened {
                Err(_) => false,
                Ok(ArchiveContents::Stream(inner)) => child_gives(
                    at,
                    inner,
                    LayerModel::Archive { member: None },
                    Ok(None),
                ),
                Ok(ArchiveContents::Members(members)) => members_pass(
                    at,
                    members@,
                    members@.len() as int,
                ),
            })
}

/// Archive peeler `i` claims the source and gives the outcome.
pub open spec fn archive_gives<T>(at: Site<T>, i: int, r: VfsResult<Option<T>>) -> bool {
    let p = &at.reg.archives[i];
    &&& exists|c: Confidence| #[trigger] p.may_probe(at.w, c) && !(c is No)
    &&& !nothing(r)
    &&& exists|opened: VfsResult<ArchiveContents>| #[trigger]
        p.may_open(at.source, opened) && match opened {
            Err(e) => r == Err::<Option<T>, VfsError>(e),
            Ok(ArchiveContents::Stream(inner)) => child_gives(
                at,
                inner,
                LayerModel::Archive { member: None },
                r,
            ),
            Ok(ArchiveContents::Members(members)) => first_member_gives(at, members@, r),
        }
}

/// Encryption prober `i` never took the source for possible, or its scheme does not
/// decrypt it, or nothing comes of what it decrypts.
pub open spec fn guess_passes(at: Site<Resolved>, creds: DynCredentials, i: int) -> bool {
    let p = &at.reg.encryption[i];
    exists|c: Confidence| #[trigger]
        p.may_probe(at.w, c) && (!(c is Maybe) || exists|
            opened: VfsResult<Box<dyn EncryptionLayer>>,
        | #[trigger]
            p.may_open(at.source, opened) && opened is Ok && (plaintext_child(
                at,
                p,
                &opened->Ok_0,
                creds,
                Ok(None),
            ) || may_refuse(&opened->Ok_0, creds)))
}

/// Encryption prober `i` took the source for possible and gives the outcome: what it
/// decrypts does, or a failure to open it.
pub open spec fn guess_gives(
    at: Site<Resolved>,
    creds: DynCredentials,
    i: int,
    r: VfsResult<Option<Resolved>>,
) -> bool {
    let p = &at.reg.encryption[i];
    &&& exists|c: Confidence| #[trigger] p.may_probe(at.w, c) && c is Maybe
    &&& !nothing(r)
    &&& exists|opened: VfsResult<Box<dyn EncryptionLayer>>| #[trigger]
        p.may_open(at.source, opened) && match opened {
            Err(e) => r == Err::<Option<Resolved>, VfsError>(e),
            Ok(layer) => plaintext_child(at, p, &layer, creds, r),
        }
}

/// The attempt comes to nothing.
pub open spec fn passes(at: Site<Resolved>, creds: DynCredentials, a: Attempt) -> bool {
    match a {
        Attempt::Filesystem(i) => filesystem_passes(at, i),
        Attempt::VolumeSystem(i) => volume_system_passes(at, i),
        Attempt::Signature(i) => signature_passes(at, creds, i),
        Attempt::Container(i) => container_passes(at, i),
        Attempt::Archive(i) => archive_passes(at, i),
        Attempt::Guess(i) => guess_passes(at, creds, i),
    }
}

/// The attempt gives the outcome.
pub open spec fn gives(
    at: Site<Resolved>,
    creds: DynCredentials,
    a: Attempt,
    r: VfsResult<Option<Resolved>>,
) -> bool {
    match a {
        Attempt::Filesystem(i) => filesystem_gives(at, i, r),
        Attempt::VolumeSystem(i) => volume_system_gives(at, i, r),
        Attempt::Signature(i) => signature_gives(at, creds, i, r),
        Attempt::Container(i) => container_gives(at, i, r),
        Attempt::Archive(i) => archive_gives(at, i, r),
        Attempt::Guess(i) => guess_gives(at, creds, i, r),
    }
}

/// Every attempt that precedes `a` comes to nothing.
pub open spec fn all_pass_before(at: Site<Resolved>, creds: DynCredentials, a: Attempt) -> bool {
    forall|b: Attempt| registered(at, b) && precedes(b, a) ==> #[trigger] passes(at, creds, b)
}

/// The first attempt that does not come to nothing gives the outcome; where all come to
/// nothing, nothing is found.
pub open spec fn first_attempt_gives(
    at: Site<Resolved>,
    creds: DynCredentials,
    r: VfsResult<Option<Resolved>>,
) -> bool {
    if nothing(r) {
        forall|b: Attempt| registered(at, b) ==> #[trigger] passes(at, creds, b)
    } else {
        exists|a: Attempt|
            registered(at, a) && #[trigger] gives(at, creds, a, r) && all_pass_before(
                at,
                creds,
                a,
            )
    }
}

// ---------------------------------------------------------------------------
// From the stages to the attempts
// ---------------------------------------------------------------------------

/// Of `n` in a row the first that does not pass gives; where all pass, `rest` holds.
spec fn one_gives(
    pass: spec_fn(int) -> bool,
    give: spec_fn(int) -> bool,
    n: int,
    rest: bool,
) -> bool {
    ||| exists|m: int|
        0 <= m < n && #[trigger] give(m) && forall|j: int| 0 <= j < m ==> #[trigger] pass(j)
    ||| rest && forall|j: int| 0 <= j < n ==> #[trigger] pass(j)
}

proof fn lemma_filesystems(at: Site<Resolved>, i: int, r: VfsResult<Option<Resolved>>, rest: bool)
    requires
        0 <= i <= at.reg.filesystems.len(),
        filesystems_from(at, i, r, rest),
        forall|j: int| 0 <= j < i ==> #[trigger] filesystem_passes(at, j),
    ensures
        one_gives(
            |j: int| filesystem_passes(at, j),
            |j: int| filesystem_gives(at, j, r),
            at.reg.filesystems.len() as int,
            rest,
        ),
    decreases at.reg.filesystems.len() - i,
{
    let pass = |j: int| filesystem_passes(at, j);
    let give = |j: int| filesystem_gives(at, j, r);
    if i < at.reg.filesystems.len() {
        let p = &at.reg.filesystems[i];
        let c = choose|c: Confidence|
            {
                &&& #[trigger] at.reg.filesystems[i].may_probe(at.w, c)
                &&& if c is No {
                    filesystems_from(at, i + 1, r, rest)
                } else {
                    mounts(&at.reg.filesystems[i], at.source, at.spec, r)
                }
            };
        assert(at.reg.filesystems[i].may_probe(at.w, c));
        if c is No {
            lemma_filesystems(at, i + 1, r, rest);
        } else {
            let opened = choose|opened: VfsResult<DynFs>|
                {
                    &&& #[trigger] p.may_open(at.source, opened)
                    &&& match opened {
                        Err(e) => r == Err::<Option<Resolved>, VfsError>(e),
                        Ok(fs) => exists|kind: FsKind|
                            {
                                &&& #[trigger] p.may_kind(kind)
                                &&& r matches Ok(Some(out))
                                &&& out.fs == fs
                                &&& out.spec@ == at.spec.push(crate::resolver::fs_layer(kind))
                                &&& out.source == at.source
                                &&& out.source_spec@ == at.spec
                            },
                    }
                };
            assert(p.may_open(at.source, opened));
            assert(filesystem_gives(at, i, r));
            assert(give(i));
        }
    }
}

proof fn lemma_child<T>(
    at: Site<T>,
    child: DynSource,
    layer: LayerModel,
    r: VfsResult<Option<T>>,
    rest: bool,
)
    requires
        child_decides(at, child, layer, r, rest),
    ensures
        (child_gives(at, child, layer, r) && !nothing(r)) || (rest && child_gives(
            at,
            child,
            layer,
            Ok(None),
        )),
{
    let c = choose|c: VfsResult<Option<T>>|
        {
            &&& #[trigger] (at.k)(child, at.spec.push(layer), c)
            &&& match c {
                Ok(None) => rest,
                _ => r == c,
            }
        };
    assert((at.k)(child, at.spec.push(layer), c));
}

proof fn lemma_volumes(
    at: Site<Resolved>,
    p: &Box<dyn VolumeSystemProbe>,
    sys: &Box<dyn VolumeSystem>,
    n: int,
    j: int,
    r: VfsResult<Option<Resolved>>,
    rest: bool,
)
    requires
        0 <= j <= n,
        volumes_from(at, p, sys, n, j, r, rest),
        volumes_pass(at, p, sys, j),
    ensures
        first_volume_gives(at, p, sys, n, r) || (rest && volumes_pass(at, p, sys, n)),
    decreases n - j,
{
    if j < n {
        let next = volumes_from(at, p, sys, n, j + 1, r, rest);
        let opened = choose|opened: VfsResult<DynSource>|
            {
                &&& #[trigger] sys.may_open_volume(j as usize, opened)
                &&& match opened {
                    Err(e) => r == Err::<Option<Resolved>, VfsError>(e),
                    Ok(sub) => exists|scheme: VolumeScheme|
                        {
                            &&& #[trigger] p.may_scheme(scheme)
                            &&& child_decides(
                                at,
                                sub,
                                LayerModel::Volume { scheme, index: j as usize, guid: None },
                                r,
                                next,
                            )
                        },
                }
            };
        assert(sys.may_open_volume(j as usize, opened));
        match opened {
            Err(e) => {
                assert(sys.may_open_volume(j as usize, Err(e)));
                assert(volume_gives(at, p, sys, j, r));
            },
            Ok(sub) => {
                let scheme = choose|scheme: VolumeScheme|
                    {
                        &&& #[trigger] p.may_scheme(scheme)
                        &&& child_decides(
                            at,
                            sub,
                            LayerModel::Volume { scheme, index: j as usize, guid: None },
                            r,
                            next,
                        )
                    };
                let layer = LayerModel::Volume { scheme, index: j as usize, guid: None };
                lemma_child(at, sub, layer, r, next);
                assert(sys.may_open_volume(j as usize, Ok(sub)));
                assert(p.may_scheme(scheme));
                if child_gives(at, sub, layer, r) && !nothing(r) {
                    assert(volume_child(at, p, sys, j, r));
                    assert(volume_gives(at, p, sys, j, r));
                } else {
                    assert(volume_child(at, p, sys, j, Ok(None)));
                    lemma_volumes(at, p, sys, n, j + 1, r, rest);
                }
            },
        }
    }
}

proof fn lemma_volume_systems(
    at: Site<Resolved>,
    i: int,
    r: VfsResult<Option<Resolved>>,
    rest: bool,
)
    requires
        0 <= i <= at.reg.volume_systems.len(),
        volume_systems_from(at, i, r, rest),
        forall|j: int| 0 <= j < i ==> #[trigger] volume_system_passes(at, j),
    ensures
        one_gives(
            |j: int| volume_system_passes(at, j),
            |j: int| volume_system_gives(at, j, r),
            at.reg.volume_systems.len() as int,
            rest,
        ),
    decreases at.reg.volume_systems.len() - i,
{
    let pass = |j: int| volume_system_passes(at, j);
    let give = |j: int| volume_system_gives(at, j, r);
    if i < at.reg.volume_systems.len() {
        let p = &at.reg.volume_systems[i];
        let next = volume_systems_from(at, i + 1, r, rest);
        let c = choose|c: Confidence|
            {
                &&& #[trigger] p.may_probe(at.w, c)
                &&& if c is No {
                    next
                } else {
                    volume_system_opens(at, p, r, next)
                }
            };
        assert(at.reg.volume_systems[i].may_probe(at.w, c));
        if c is No {
            lemma_volume_systems(at, i + 1, r, rest);
        } else {
            let opened = choose|opened: VfsResult<Box<dyn VolumeSystem>>|
                {
                    &&& #[trigger] p.may_open(at.source, opened)
                    &&& match opened {
                        Err(e) => r == Err::<Option<Resolved>, VfsError>(e),
                        Ok(sys) => exists|v: Seq<VolumeDesc>| #[trigger]
                            sys.may_volumes(v) && volumes_from(
                                at,
                                p,
                                &sys,
                                v.len() as int,
                                0,
                                r,
                                next,
                            ),
                    }
                };
            assert(p.may_open(at.source, opened));
            if let Ok(sys) = opened {
                let v = choose|v: Seq<VolumeDesc>| #[trigger]
                    sys.may_volumes(v) && volumes_from(at, p, &sys, v.len() as int, 0, r, next);
                lemma_volumes(at, p, &sys, v.len() as int, 0, r, next);
                assert(opened->Ok_0.may_volumes(v));
                if !first_volume_gives(at, p, &sys, v.len() as int, r) {
                    assert(volume_system_passes(at, i));
                    lemma_volume_systems(at, i + 1, r, rest);
                } else {
                    assert(give(i));
                }
            } else {
                assert(give(i));
            }
        }
    }
}

proof fn lemma_containers<T>(at: Site<T>, i: int, r: VfsResult<Option<T>>, rest: bool)
    requires
        0 <= i <= at.reg.containers.len(),
        containers_from(at, i, r, rest),
        forall|j: int| 0 <= j < i ==> #[trigger] container_passes(at, j),
    ensures
        one_gives(
            |j: int| container_passes(at, j),
            |j: int| container_gives(at, j, r),
            at.reg.containers.len() as int,
            rest,
        ),
    decreases at.reg.containers.len() - i,
{
    let pass = |j: int| container_passes(at, j);
    let give = |j: int| container_gives(at, j, r);
    if i < at.reg.containers.len() {
        let p = &at.reg.containers[i];
        let next = containers_from(at, i + 1, r, rest);
        let c = choose|c: Confidence|
            {
                &&& #[trigger] p.may_probe(at.w, c)
                &&& if c is No {
                    next
                } else {
                    container_decodes(at, p, r, next)
                }
            };
        assert(at.reg.containers[i].may_probe(at.w, c));
        if c is No {
            lemma_containers(at, i + 1, r, rest);
        } else {
            let opened = choose|opened: VfsResult<DynSource>|
                {
                    &&& #[trigger] p.may_open(at.source, opened)
                    &&& match opened {
                        Err(e) => r == Err::<Option<T>, VfsError>(e),
                        Ok(payload) => exists|format: ContainerFormat|
                            {
                                &&& #[trigger] p.may_format(format)
                                &&& child_decides(
                                    at,
                                    payload,
                                    LayerModel::Container { format },
                                    r,
                                    next,
                                )
                            },
                    }
                };
            assert(p.may_open(at.source, opened));
            match opened {
                Err(e) => {
                    assert(p.may_open(at.source, Err(e)));
                    assert(give(i));
                },
                Ok(payload) => {
                    let format = choose|format: ContainerFormat|
                        {
                            &&& #[trigger] p.may_format(format)
                            &&& child_decides(
                                at,
                                payload,
                                LayerModel::Container { format },
                                r,
                                next,
                            )
                        };
                    let layer = LayerModel::Container { format };
                    lemma_child(at, payload, layer, r, next);
                    assert(p.may_open(at.source, Ok(payload)));
                    assert(p.may_format(format));
                    if child_gives(at, payload, layer, r) && !nothing(r) {
                        assert(give(i));
                    } else {
                        assert(container_passes(at, i));
                        lemma_containers(at, i + 1, r, rest);
                    }
                },
            }
        }
    }
}

proof fn lemma_members<T>(
    at: Site<T>,
    members: Seq<Member>,
    j: int,
    r: VfsResult<Option<T>>,
    rest: bool,
)
    requires
        0 <= j <= members.len(),
        members_from(at, members, j, r, rest),
        members_pass(at, members, j),
    ensures
        (first_member_gives(at, members, r) && !nothing(r)) || (rest && members_pass(
            at,
            members,
            members.len() as int,
        )),
    decreases members.len() - j,
{
    if j < members.len() {
        let next = members_from(at, members, j + 1, r, rest);
        let layer = LayerModel::Archive { member: Some(j as usize) };
        lemma_child(at, members[j].source, layer, r, next);
        if child_gives(at, members[j].source, layer, r) && !nothing(r) {
            assert(member_child(at, members, j, r));
        } else {
            assert(member_child(at, members, j, Ok(None)));
            lemma_members(at, members, j + 1, r, rest);
        }
    }
}

proof fn lemma_archives<T>(at: Site<T>, i: int, r: VfsResult<Option<T>>, rest: bool)
    requires
        0 <= i <= at.reg.archives.len(),
        archives_from(at, i, r, rest),
        forall|j: int| 0 <= j < i ==> #[trigger] archive_passes(at, j),
    ensures
        one_gives(
            |j: int| archive_passes(at, j),
            |j: int| archive_gives(at, j, r),
            at.reg.archives.len() as int,
            rest,
        ),
    decreases at.reg.archives.len() - i,
{
    let pass = |j: int| archive_passes(at, j);
    let give = |j: int| archive_gives(at, j, r);
    if i < at.reg.archives.len() {
        let p = &at.reg.archives[i];
        let next = archives_from(at, i + 1, r, rest);
        let c = choose|c: Confidence|
            {
                &&& #[trigger] p.may_probe(at.w, c)
                &&& if c is No {
                    next
                } else {
                    archive_peels(at, p, r, next)
                }
            };
        assert(at.reg.archives[i].may_probe(at.w, c));
        if c is No {
            lemma_archives(at, i + 1, r, rest);
        } else {
            let opened = choose|opened: VfsResult<ArchiveContents>|
                {
                    &&& #[trigger] p.may_open(at.source, opened)
                    &&& match opened {
                        Err(e) => r == Err::<Option<T>, VfsError>(e),
                        Ok(ArchiveContents::Stream(inner)) => child_decides(
                            at,
                            inner,
                            LayerModel::Archive { member: None },
                            r,
                            next,
                        ),
                        Ok(ArchiveContents::Members(members)) => members_from(
                            at,
                            members@,
                            0,
                            r,
                            next,
                        ),
                    }
                };
            assert(p.may_open(at.source, opened));
            match opened {
                Err(_) => {
                    assert(give(i));
                },
                Ok(ArchiveContents::Stream(inner)) => {
                    let layer = LayerModel::Archive { member: None };
                    lemma_child(at, inner, layer, r, next);
                    if child_gives(at, inner, layer, r) && !nothing(r) {
                        assert(give(i));
                    } else {
                        assert(archive_passes(at, i));
                        lemma_archives(at, i + 1, r, rest);
                    }
                },
                Ok(ArchiveContents::Members(members)) => {
                    lemma_members(at, members@, 0, r, next);
                    if first_member_gives(at, members@, r) && !nothing(r) {
                        assert(give(i));
                    } else {
                        assert(archive_passes(at, i));
                        lemma_archives(at, i + 1, r, rest);
                    }
                },
            }
        }
    }
}

proof fn lemma_plaintext(
    at: Site<Resolved>,
    p: &Box<dyn EncryptionProbe>,
    layer: &Box<dyn EncryptionLayer>,
    creds: DynCredentials,
    plain: DynSource,
    r: VfsResult<Option<Resolved>>,
    rest: bool,
)
    requires
        layer.may_decrypt(creds, Ok(plain)),
        plaintext_decides(at, p, plain, r, rest),
    ensures
        (plaintext_child(at, p, layer, creds, r) && !nothing(r)) || (rest && plaintext_child(
            at,
            p,
            layer,
            creds,
            Ok(None),
        )),
{
    let scheme = choose|scheme: EncryptionScheme|
        {
            &&& #[trigger] p.may_scheme(scheme)
            &&& child_decides(at, plain, LayerModel::Encryption { scheme }, r, rest)
        };
    lemma_child(at, plain, LayerModel::Encryption { scheme }, r, rest);
    assert(p.may_scheme(scheme));
}

/// The probers recorded for the last stage: in registration order, those that took the
/// source for possible, and of the first `i` no others did.
spec fn recorded(at: Site<Resolved>, i: int, attempts: Seq<usize>) -> bool {
    &&& forall|k: int| 0 <= k < attempts.len() ==> (#[trigger] attempts[k]) < i
    &&& forall|k: int|
        0 <= k < attempts.len() ==> at.reg.encryption[(#[trigger] attempts[k]) as int].may_probe(
            at.w,
            Confidence::Maybe,
        )
    &&& forall|k: int, l: int| 0 <= k < l < attempts.len() ==> attempts[k] < attempts[l]
    &&& forall|n: int|
        0 <= n < i && !attempts.contains(n as usize) ==> #[trigger] guess_declined(at, n)
}

spec fn guess_declined(at: Site<Resolved>, n: int) -> bool {
    exists|c: Confidence| #[trigger] at.reg.encryption[n].may_probe(at.w, c) && !(c is Maybe)
}

proof fn lemma_signature(
    at: Site<Resolved>,
    creds: DynCredentials,
    i: int,
    r: VfsResult<Option<Resolved>>,
    next: bool,
    c: Confidence,
)
    requires
        at.reg.encryption[i].may_probe(at.w, c),
        c is Yes,
        signature_decrypts(at, &at.reg.encryption[i], creds, r, next),
    ensures
        signature_gives(at, creds, i, r) || (next && signature_passes(at, creds, i)),
{
    let p = &at.reg.encryption[i];
    let opened = choose|opened: VfsResult<Box<dyn EncryptionLayer>>|
        {
            &&& #[trigger] p.may_open(at.source, opened)
            &&& match opened {
                Err(e) => r == Err::<Option<Resolved>, VfsError>(e),
                Ok(layer) => exists|d: VfsResult<DynSource>|
                    {
                        &&& #[trigger] layer.may_decrypt(creds, d)
                        &&& match d {
                            Err(e) => r == Err::<Option<Resolved>, VfsError>(e),
                            Ok(plain) => plaintext_decides(at, p, plain, r, next),
                        }
                    },
            }
        };
    assert(p.may_open(at.source, opened));
    if let Ok(layer) = opened {
        let d = choose|d: VfsResult<DynSource>|
            {
                &&& #[trigger] layer.may_decrypt(creds, d)
                &&& match d {
                    Err(e) => r == Err::<Option<Resolved>, VfsError>(e),
                    Ok(plain) => plaintext_decides(at, p, plain, r, next),
                }
            };
        assert(layer.may_decrypt(creds, d));
        match d {
            Err(e) => {
                assert(layer.may_decrypt(creds, Err(e)));
            },
            Ok(plain) => {
                assert(layer.may_decrypt(creds, Ok(plain)));
                lemma_plaintext(at, p, &layer, creds, plain, r, next);
            },
        }
    }
}

proof fn lemma_signatures(
    at: Site<Resolved>,
    creds: DynCredentials,
    i: int,
    attempts: Seq<usize>,
    r: VfsResult<Option<Resolved>>,
    rest: spec_fn(Seq<usize>) -> bool,
) -> (after: Seq<usize>)
    requires
        0 <= i <= at.reg.encryption.len() <= usize::MAX,
        signatures_from(at, creds, i, attempts, r, rest),
        recorded(at, i, attempts),
        forall|j: int| 0 <= j < i ==> #[trigger] signature_passes(at, creds, j),
    ensures
        one_gives(
            |j: int| signature_passes(at, creds, j),
            |j: int| signature_gives(at, creds, j, r),
            at.reg.encryption.len() as int,
            rest(after) && recorded(at, at.reg.encryption.len() as int, after),
        ),
    decreases at.reg.encryption.len() - i,
{
    let give = |j: int| signature_gives(at, creds, j, r);
    if i < at.reg.encryption.len() {
        let p = &at.reg.encryption[i];
        let next = signatures_from(at, creds, i + 1, attempts, r, rest);
        let c = choose|c: Confidence|
            {
                &&& #[trigger] p.may_probe(at.w, c)
                &&& match c {
                    Confidence::Yes { .. } => signature_decrypts(at, p, creds, r, next),
                    Confidence::Maybe => signatures_from(
                        at,
                        creds,
                        i + 1,
                        attempts.push(i as usize),
                        r,
                        rest,
                    ),
                    Confidence::No => next,
                }
            };
        assert(at.reg.encryption[i].may_probe(at.w, c));
        if c is Maybe {
            let now = attempts.push(i as usize);
            assert forall|n: int| 0 <= n < i + 1 && !now.contains(n as usize) implies #[trigger]
                guess_declined(at, n) by {
                if attempts.contains(n as usize) {
                    let k = choose|k: int| 0 <= k < attempts.len() && attempts[k] == n as usize;
                    assert(now[k] == n as usize);
                }
                if n == i {
                    assert(now[attempts.len() as int] == n as usize);
                }
            }
            assert(recorded(at, i + 1, now));
            lemma_signatures(at, creds, i + 1, now, r, rest)
        } else {
            assert(guess_declined(at, i));
            assert(recorded(at, i + 1, attempts));
            if c is Yes {
                lemma_signature(at, creds, i, r, next, c);
            }
            if c is Yes && signature_gives(at, creds, i, r) {
                assert(give(i));
                attempts
            } else {
                lemma_signatures(at, creds, i + 1, attempts, r, rest)
            }
        }
    } else {
        attempts
    }
}

/// Every encryption prober before `n` passes as a guess.
spec fn guesses_pass(at: Site<Resolved>, creds: DynCredentials, n: int) -> bool {
    forall|j: int| 0 <= j < n ==> #[trigger] guess_passes(at, creds, j)
}

/// The probers up to the next recorded one pass: they were not recorded.
proof fn lemma_unrecorded_pass(
    at: Site<Resolved>,
    creds: DynCredentials,
    attempts: Seq<usize>,
    j: int,
    from: int,
    to: int,
)
    requires
        0 <= from <= to <= at.reg.encryption.len() <= usize::MAX,
        0 <= j <= attempts.len(),
        recorded(at, at.reg.encryption.len() as int, attempts),
        guesses_pass(at, creds, from),
        forall|k: int| 0 <= k < j ==> (#[trigger] attempts[k]) < from,
        forall|k: int| j <= k < attempts.len() ==> (#[trigger] attempts[k]) >= to,
    ensures
        guesses_pass(at, creds, to),
{
    assert forall|n: int| 0 <= n < to implies #[trigger] guess_passes(at, creds, n) by {
        if n >= from {
            assert(guess_declined(at, n));
        }
    }
}

proof fn lemma_attempts(
    at: Site<Resolved>,
    creds: DynCredentials,
    attempts: Seq<usize>,
    j: int,
    from: int,
    r: VfsResult<Option<Resolved>>,
)
    requires
        0 <= from <= at.reg.encryption.len() <= usize::MAX,
        0 <= j <= attempts.len(),
        recorded(at, at.reg.encryption.len() as int, attempts),
        guesses_pass(at, creds, from),
        forall|k: int| 0 <= k < j ==> (#[trigger] attempts[k]) < from,
        forall|k: int| j <= k < attempts.len() ==> (#[trigger] attempts[k]) >= from,
        attempts_from(at, creds, attempts, j, r),
    ensures
        one_gives(
            |n: int| guess_passes(at, creds, n),
            |n: int| guess_gives(at, creds, n, r),
            at.reg.encryption.len() as int,
            nothing(r),
        ),
    decreases attempts.len() - j,
{
    let give = |n: int| guess_gives(at, creds, n, r);
    let total = at.reg.encryption.len() as int;
    if j < attempts.len() {
        let n = attempts[j] as int;
        lemma_unrecorded_pass(at, creds, attempts, j, from, n);
        let p = &at.reg.encryption[n];
        let next = attempts_from(at, creds, attempts, j + 1, r);
        let opened = choose|opened: VfsResult<Box<dyn EncryptionLayer>>|
            {
                &&& #[trigger] p.may_open(at.source, opened)
                &&& match opened {
                    Err(e) => r == Err::<Option<Resolved>, VfsError>(e),
                    Ok(layer) => exists|d: VfsResult<DynSource>|
                        {
                            &&& #[trigger] layer.may_decrypt(creds, d)
                            &&& match d {
                                Err(_) => next,
                                Ok(plain) => plaintext_decides(at, p, plain, r, next),
                            }
                        },
                }
            };
        assert(at.reg.encryption[n].may_probe(at.w, Confidence::Maybe));
        assert(p.may_open(at.source, opened));
        if let Ok(layer) = opened {
            let d = choose|d: VfsResult<DynSource>|
                {
                    &&& #[trigger] layer.may_decrypt(creds, d)
                    &&& match d {
                        Err(_) => next,
                        Ok(plain) => plaintext_decides(at, p, plain, r, next),
                    }
                };
            assert(layer.may_decrypt(creds, d));
            match d {
                Err(e) => {
                    assert(layer.may_decrypt(creds, Err(e)));
                    assert(may_refuse(&layer, creds));
                    assert(guess_passes(at, creds, n));
                },
                Ok(plain) => {
                    assert(layer.may_decrypt(creds, Ok(plain)));
                    lemma_plaintext(at, p, &layer, creds, plain, r, next);
                    assert(guess_gives(at, creds, n, r) || guess_passes(at, creds, n));
                },
            }
            if guess_gives(at, creds, n, r) {
                assert(give(n));
            } else {
                assert(next);
                lemma_attempts(at, creds, attempts, j + 1, n + 1, r);
            }
        } else {
            assert(give(n));
        }
    } else {
        lemma_unrecorded_pass(at, creds, attempts, j, from, total);
    }
}

// ---------------------------------------------------------------------------
// The law of the resolve
// ---------------------------------------------------------------------------

/// The source, with what the registry makes of its children.
pub open spec fn resolving(
    reg: Registry,
    creds: DynCredentials,
    w: WindowModel,
    source: DynSource,
    spec: Seq<LayerModel>,
    depth: int,
) -> Site<Resolved> {
    Site {
        reg: reg@,
        w,
        source,
        spec,
        k: |s: DynSource, sp: Seq<LayerModel>, c: VfsResult<Option<Resolved>>|
            reg.may_resolve(creds, s, sp, depth + 1, c),
    }
}

proof fn lemma_settled(
    at: Site<Resolved>,
    creds: DynCredentials,
    r: VfsResult<Option<Resolved>>,
    a: Attempt,
)
    requires
        registered(at, a),
        gives(at, creds, a, r),
        !nothing(r),
        all_pass_before(at, creds, a),
    ensures
        first_attempt_gives(at, creds, r),
{
}

proof fn lemma_descends(
    at: Site<Resolved>,
    creds: DynCredentials,
    r: VfsResult<Option<Resolved>>,
)
    requires
        at.reg.encryption.len() <= usize::MAX,
        crate::resolver::descends(at, creds, r),
    ensures
        first_attempt_gives(at, creds, r),
{
    let tail = after_signatures(at, creds, r);
    let signatures = signatures_from(at, creds, 0, Seq::empty(), r, tail);
    let volumes = volume_systems_from(at, 0, r, signatures);
    let none = Seq::<usize>::empty();
    lemma_filesystems(at, 0, r, volumes);
    let pass0 = |j: int| filesystem_passes(at, j);
    let give0 = |j: int| filesystem_gives(at, j, r);
    let pass1 = |j: int| volume_system_passes(at, j);
    let give1 = |j: int| volume_system_gives(at, j, r);
    let pass2 = |j: int| signature_passes(at, creds, j);
    let give2 = |j: int| signature_gives(at, creds, j, r);
    let pass3 = |j: int| container_passes(at, j);
    let give3 = |j: int| container_gives(at, j, r);
    let pass4 = |j: int| archive_passes(at, j);
    let give4 = |j: int| archive_gives(at, j, r);
    let pass5 = |j: int| guess_passes(at, creds, j);
    let give5 = |j: int| guess_gives(at, creds, j, r);
    let n0 = at.reg.filesystems.len() as int;
    let n1 = at.reg.volume_systems.len() as int;
    let n2 = at.reg.encryption.len() as int;
    let n3 = at.reg.containers.len() as int;
    let n4 = at.reg.archives.len() as int;
    if exists|m: int|
        0 <= m < n0 && #[trigger] give0(m) && forall|j: int| 0 <= j < m ==> #[trigger] pass0(j) {
        let m = choose|m: int|
            0 <= m < n0 && #[trigger] give0(m) && forall|j: int|
                0 <= j < m ==> #[trigger] pass0(j);
        assert forall|b: Attempt|
            registered(at, b) && precedes(b, Attempt::Filesystem(m)) implies #[trigger] passes(
            at,
            creds,
            b,
        ) by {
            assert(pass0(number(b)));
        }
        lemma_settled(at, creds, r, Attempt::Filesystem(m));
    } else {
        assert forall|b: Attempt| registered(at, b) && rank(b) == 0 implies #[trigger] passes(
            at,
            creds,
            b,
        ) by {
            assert(pass0(number(b)));
        }
        lemma_volume_systems(at, 0, r, signatures);
        if exists|m: int|
            0 <= m < n1 && #[trigger] give1(m) && forall|j: int|
                0 <= j < m ==> #[trigger] pass1(j) {
            let m = choose|m: int|
                0 <= m < n1 && #[trigger] give1(m) && forall|j: int|
                    0 <= j < m ==> #[trigger] pass1(j);
            assert forall|b: Attempt|
                registered(at, b) && precedes(b, Attempt::VolumeSystem(m)) implies #[trigger] passes(
                at,
                creds,
                b,
            ) by {
                if rank(b) == 1 {
                    assert(pass1(number(b)));
                }
            }
            lemma_settled(at, creds, r, Attempt::VolumeSystem(m));
        } else {
            assert forall|b: Attempt| registered(at, b) && rank(b) == 1 implies #[trigger] passes(
                at,
                creds,
                b,
            ) by {
                assert(pass1(number(b)));
            }
            assert(recorded(at, 0, none));
            let after = lemma_signatures(at, creds, 0, none, r, tail);
            if exists|m: int|
                0 <= m < n2 && #[trigger] give2(m) && forall|j: int|
                    0 <= j < m ==> #[trigger] pass2(j) {
                let m = choose|m: int|
                    0 <= m < n2 && #[trigger] give2(m) && forall|j: int|
                        0 <= j < m ==> #[trigger] pass2(j);
                assert forall|b: Attempt|
                    registered(at, b) && precedes(
                        b,
                        Attempt::Signature(m),
                    ) implies #[trigger] passes(at, creds, b) by {
                    if rank(b) == 2 {
                        assert(pass2(number(b)));
                    }
                }
                lemma_settled(at, creds, r, Attempt::Signature(m));
            } else {
                assert forall|b: Attempt|
                    registered(at, b) && rank(b) == 2 implies #[trigger] passes(at, creds, b) by {
                    assert(pass2(number(b)));
                }
                assert(tail(after));
                let last = attempts_from(at, creds, after, 0, r);
                let archives = archives_from(at, 0, r, last);
                lemma_containers(at, 0, r, archives);
                if exists|m: int|
                    0 <= m < n3 && #[trigger] give3(m) && forall|j: int|
                        0 <= j < m ==> #[trigger] pass3(j) {
                    let m = choose|m: int|
                        0 <= m < n3 && #[trigger] give3(m) && forall|j: int|
                            0 <= j < m ==> #[trigger] pass3(j);
                    assert forall|b: Attempt|
                        registered(at, b) && precedes(
                            b,
                            Attempt::Container(m),
                        ) implies #[trigger] passes(at, creds, b) by {
                        if rank(b) == 3 {
                            assert(pass3(number(b)));
                        }
                    }
                    lemma_settled(at, creds, r, Attempt::Container(m));
                } else {
                    assert forall|b: Attempt|
                        registered(at, b) && rank(b) == 3 implies #[trigger] passes(
                        at,
                        creds,
                        b,
                    ) by {
                        assert(pass3(number(b)));
                    }
                    lemma_archives(at, 0, r, last);
                    if exists|m: int|
                        0 <= m < n4 && #[trigger] give4(m) && forall|j: int|
                            0 <= j < m ==> #[trigger] pass4(j) {
                        let m = choose|m: int|
                            0 <= m < n4 && #[trigger] give4(m) && forall|j: int|
                                0 <= j < m ==> #[trigger] pass4(j);
                        assert forall|b: Attempt|
                            registered(at, b) && precedes(
                                b,
                                Attempt::Archive(m),
                            ) implies #[trigger] passes(at, creds, b) by {
                            if rank(b) == 4 {
                                assert(pass4(number(b)));
                            }
                        }
                        lemma_settled(at, creds, r, Attempt::Archive(m));
                    } else {
                        assert forall|b: Attempt|
                            registered(at, b) && rank(b) == 4 implies #[trigger] passes(
                            at,
                            creds,
                            b,
                        ) by {
                            assert(pass4(number(b)));
                        }
                        assert(guesses_pass(at, creds, 0));
                        lemma_attempts(at, creds, after, 0, 0, r);
                        if exists|m: int|
                            0 <= m < n2 && #[trigger] give5(m) && forall|j: int|
                                0 <= j < m ==> #[trigger] pass5(j) {
                            let m = choose|m: int|
                                0 <= m < n2 && #[trigger] give5(m) && forall|j: int|
                                    0 <= j < m ==> #[trigger] pass5(j);
                            assert forall|b: Attempt|
                                registered(at, b) && precedes(
                                    b,
                                    Attempt::Guess(m),
                                ) implies #[trigger] passes(at, creds, b) by {
                                if rank(b) == 5 {
                                    assert(pass5(number(b)));
                                }
                            }
                            lemma_settled(at, creds, r, Attempt::Guess(m));
                        } else {
                            assert forall|b: Attempt| registered(at, b) implies #[trigger] passes(
                                at,
                                creds,
                                b,
                            ) by {
                                if rank(b) == 5 {
                                    assert(pass5(number(b)));
                                }
                            }
                        }
                    }
                }
            }
        }
    }
}

/// What a resolve may come to: past the eighth level nothing; else the failure of a read
/// of the source, or, for a window of it, what the first attempt gives that does not come
/// to nothing.
pub proof fn the_first_attempt_that_finds_something_decides(
    reg: Registry,
    creds: DynCredentials,
    source: DynSource,
    spec: Seq<LayerModel>,
    depth: int,
    r: VfsResult<Option<Resolved>>,
)
    requires
        reg.may_resolve(creds, source, spec, depth, r),
    ensures
        depth > 8 ==> nothing(r),
        depth <= 8 ==> (r matches Err(e) && unreadable(source, e)) || exists|w: WindowModel|
            window_of(source, w) && #[trigger] first_attempt_gives(
                resolving(reg, creds, w, source, spec, depth),
                creds,
                r,
            ),
{
    if depth <= 8 {
        let w = choose|w: VfsResult<WindowModel>|
            {
                &&& #[trigger] sniffs(source, w)
                &&& match w {
                    Err(e) => r == Err::<Option<Resolved>, VfsError>(e),
                    Ok(w) => crate::resolver::descends(
                        resolve_site(reg@, creds, w, source, spec, depth),
                        creds,
                        r,
                    ),
                }
            };
        sniffing_shows_the_head_and_the_tail(source, w);
        if let Ok(w) = w {
            let at = resolve_site(reg@, creds, w, source, spec, depth);
            let here = resolving(reg, creds, w, source, spec, depth);
            assert(at.k =~= here.k);
            assert(at == here);
            crate::registry::lemma_probers_fit(reg);
            lemma_descends(at, creds, r);
            assert(first_attempt_gives(here, creds, r));
        }
    }
}

// ---------------------------------------------------------------------------
// The law of the peel
// ---------------------------------------------------------------------------

/// The source, with what a peel makes of its children.
pub open spec fn peeling(
    reg: Registry,
    w: WindowModel,
    source: DynSource,
    spec: Seq<LayerModel>,
    depth: int,
) -> Site<ResolvedSource> {
    Site {
        reg: reg@,
        w,
        source,
        spec,
        k: |s: DynSource, sp: Seq<LayerModel>, c: VfsResult<Option<ResolvedSource>>|
            reg.may_peel(s, sp, depth + 1, c),
    }
}

/// The containers before `n` all come to nothing.
pub open spec fn containers_pass<T>(at: Site<T>, n: int) -> bool {
    forall|j: int| 0 <= j < n ==> #[trigger] container_passes(at, j)
}

/// The archives before `n` all come to nothing.
pub open spec fn archives_pass<T>(at: Site<T>, n: int) -> bool {
    forall|j: int| 0 <= j < n ==> #[trigger] archive_passes(at, j)
}

/// The first container that does not come to nothing gives the outcome, else the first
/// such archive does, else the source itself is what the peel ends at.
pub open spec fn first_wrapper_gives(
    at: Site<ResolvedSource>,
    r: VfsResult<Option<ResolvedSource>>,
) -> bool {
    let all = at.reg.containers.len() as int;
    ||| exists|m: int| 0 <= m < all && #[trigger] container_gives(at, m, r) && containers_pass(at, m)
    ||| containers_pass(at, all) && exists|m: int|
        0 <= m < at.reg.archives.len() && #[trigger] archive_gives(at, m, r) && archives_pass(at, m)
    ||| {
        &&& containers_pass(at, all)
        &&& archives_pass(at, at.reg.archives.len() as int)
        &&& r matches Ok(Some(out))
        &&& out.source == at.source
        &&& out.spec@ == at.spec
    }
}

/// What a peel may come to: past the eighth level nothing; else the failure of a read of
/// the source, or, for a window of it, what the first wrapper gives that does not come to
/// nothing; a source without such a wrapper is its own end.
pub proof fn the_first_wrapper_that_peels_decides(
    reg: Registry,
    source: DynSource,
    spec: Seq<LayerModel>,
    depth: int,
    r: VfsResult<Option<ResolvedSource>>,
)
    requires
        reg.may_peel(source, spec, depth, r),
    ensures
        depth > 8 ==> nothing(r),
        depth <= 8 ==> (r matches Err(e) && unreadable(source, e)) || exists|w: WindowModel|
            window_of(source, w) && #[trigger] first_wrapper_gives(
                peeling(reg, w, source, spec, depth),
                r,
            ),
{
    if depth <= 8 {
        let w = choose|w: VfsResult<WindowModel>|
            {
                &&& #[trigger] sniffs(source, w)
                &&& match w {
                    Err(e) => r == Err::<Option<ResolvedSource>, VfsError>(e),
                    Ok(w) => packaging(
                        peel_site(reg@, w, source, spec, depth),
                        r,
                        is_terminal(r, source, spec),
                    ),
                }
            };
        sniffing_shows_the_head_and_the_tail(source, w);
        if let Ok(w) = w {
            let at = peel_site(reg@, w, source, spec, depth);
            let here = peeling(reg, w, source, spec, depth);
            assert(at.k =~= here.k);
            assert(at == here);
            let last = is_terminal(r, source, spec);
            let archives = archives_from(at, 0, r, last);
            lemma_containers(at, 0, r, archives);
            let pass3 = |j: int| container_passes(at, j);
            let give3 = |j: int| container_gives(at, j, r);
            let pass4 = |j: int| archive_passes(at, j);
            let give4 = |j: int| archive_gives(at, j, r);
            let n3 = at.reg.containers.len() as int;
            let n4 = at.reg.archives.len() as int;
            if exists|m: int|
                0 <= m < n3 && #[trigger] give3(m) && forall|j: int|
                    0 <= j < m ==> #[trigger] pass3(j) {
                let m = choose|m: int|
                    0 <= m < n3 && #[trigger] give3(m) && forall|j: int|
                        0 <= j < m ==> #[trigger] pass3(j);
                assert forall|j: int| 0 <= j < m implies #[trigger] container_passes(at, j) by {
                    assert(pass3(j));
                }
                assert(container_gives(at, m, r));
            } else {
                assert forall|j: int| 0 <= j < n3 implies #[trigger] container_passes(at, j) by {
                    assert(pass3(j));
                }
                lemma_archives(at, 0, r, last);
                if exists|m: int|
                    0 <= m < n4 && #[trigger] give4(m) && forall|j: int|
                        0 <= j < m ==> #[trigger] pass4(j) {
                    let m = choose|m: int|
                        0 <= m < n4 && #[trigger] give4(m) && forall|j: int|
                            0 <= j < m ==> #[trigger] pass4(j);
                    assert forall|j: int| 0 <= j < m implies #[trigger] archive_passes(at, j) by {
                        assert(pass4(j));
                    }
                    assert(archive_gives(at, m, r));
                } else {
                    assert forall|j: int| 0 <= j < n4 implies #[trigger] archive_passes(at, j) by {
                        assert(pass4(j));
                    }
                }
            }
            assert(first_wrapper_gives(here, r));
        }
    }
}

// ---------------------------------------------------------------------------
// The first of several
// ---------------------------------------------------------------------------

/// No container prober claims any window of the source.
pub open spec fn no_container_claims(reg: Registry, source: DynSource) -> bool {
    forall|i: int, w: WindowModel, c: Confidence|
        0 <= i < reg@.containers.len() && window_of(source, w)
            && #[trigger] reg@.containers[i].may_probe(w, c) ==> c is No
}

/// Archive peeler `i` is the first that claims the source.
pub open spec fn first_archive_to_claim(reg: Registry, source: DynSource, i: int) -> bool {
    &&& 0 <= i < reg@.archives.len()
    &&& forall|j: int, w: WindowModel, c: Confidence|
        0 <= j <= i && window_of(source, w) && #[trigger] reg@.archives[j].may_probe(w, c)
            ==> (c is No <==> j < i)
}

/// The first member of an archive that has members.
pub open spec fn first_member(opened: VfsResult<ArchiveContents>) -> Option<DynSource> {
    match opened {
        Ok(ArchiveContents::Members(members)) => if members@.len() > 0 {
            Some(members@[0].source)
        } else {
            None
        },
        _ => None,
    }
}

/// Peeling the first member, under its index, may come to `c`.
pub open spec fn first_member_peels_to(
    reg: Registry,
    first: DynSource,
    spec: Seq<LayerModel>,
    depth: int,
    c: VfsResult<Option<ResolvedSource>>,
) -> bool {
    reg.may_peel(first, spec.push(LayerModel::Archive { member: Some(0) }), depth + 1, c)
}

/// Of an archive whose first member peels, the first member is what the peel gives: what
/// the others hold makes no difference.
pub proof fn the_first_member_that_peels_wins(
    reg: Registry,
    source: DynSource,
    spec: Seq<LayerModel>,
    depth: int,
    i: int,
    r: VfsResult<Option<ResolvedSource>>,
)
    requires
        depth <= 8,
        reg.may_peel(source, spec, depth, r),
        no_container_claims(reg, source),
        first_archive_to_claim(reg, source, i),
        forall|opened: VfsResult<ArchiveContents>| #[trigger]
            reg@.archives[i].may_open(source, opened) ==> first_member(opened) is Some
                && !first_member_peels_to(reg, first_member(opened)->0, spec, depth, Ok(None)),
    ensures
        (r matches Err(e) && unreadable(source, e)) || exists|opened: VfsResult<ArchiveContents>|
            {
                &&& #[trigger] reg@.archives[i].may_open(source, opened)
                &&& first_member(opened) is Some
                &&& first_member_peels_to(reg, first_member(opened)->0, spec, depth, r)
            },
{
    the_first_wrapper_that_peels_decides(reg, source, spec, depth, r);
    if !(r matches Err(e) && unreadable(source, e)) {
        let w = choose|w: WindowModel|
            window_of(source, w) && #[trigger] first_wrapper_gives(
                peeling(reg, w, source, spec, depth),
                r,
            );
        let at = peeling(reg, w, source, spec, depth);
        assert forall|m: int| 0 <= m < at.reg.containers.len() implies !#[trigger] container_gives(
            at,
            m,
            r,
        ) by {
            if container_gives(at, m, r) {
                let p = &at.reg.containers[m];
                let c = choose|c: Confidence| #[trigger] p.may_probe(at.w, c) && !(c is No);
                assert(reg@.containers[m].may_probe(w, c));
            }
        }
        assert(!archive_passes(at, i)) by {
            if archive_passes(at, i) {
                let p = &at.reg.archives[i];
                let c = choose|c: Confidence| #[trigger]
                    p.may_probe(at.w, c) && (c is No || exists|opened: VfsResult<ArchiveContents>|
                        #[trigger]
                        p.may_open(at.source, opened) && match opened {
                            Err(_) => false,
                            Ok(ArchiveContents::Stream(inner)) => child_gives(
                                at,
                                inner,
                                LayerModel::Archive { member: None },
                                Ok(None),
                            ),
                            Ok(ArchiveContents::Members(members)) => members_pass(
                                at,
                                members@,
                                members@.len() as int,
                            ),
                        });
                assert(reg@.archives[i].may_probe(w, c));
                let opened = choose|opened: VfsResult<ArchiveContents>| #[trigger]
                    p.may_open(at.source, opened) && match opened {
                        Err(_) => false,
                        Ok(ArchiveContents::Stream(inner)) => child_gives(
                            at,
                            inner,
                            LayerModel::Archive { member: None },
                            Ok(None),
                        ),
                        Ok(ArchiveContents::Members(members)) => members_pass(
                            at,
                            members@,
                            members@.len() as int,
                        ),
                    };
                assert(reg@.archives[i].may_open(source, opened));
                if let Ok(ArchiveContents::Members(members)) = opened {
                    assert(member_child(at, members@, 0, Ok(None)));
                }
            }
        }
        let m = choose|m: int|
            0 <= m < at.reg.archives.len() && #[trigger] archive_gives(at, m, r)
                && archives_pass(at, m);
        if m < i {
            let p = &at.reg.archives[m];
            let c = choose|c: Confidence| #[trigger] p.may_probe(at.w, c) && !(c is No);
            assert(reg@.archives[m].may_probe(w, c));
        } else if m > i {
            assert(archive_passes(at, i));
        }
        assert(m == i);
        let p = &at.reg.archives[i];
        let opened = choose|opened: VfsResult<ArchiveContents>| #[trigger]
            p.may_open(at.source, opened) && match opened {
                Err(e) => r == Err::<Option<ResolvedSource>, VfsError>(e),
                Ok(ArchiveContents::Stream(inner)) => child_gives(
                    at,
                    inner,
                    LayerModel::Archive { member: None },
                    r,
                ),
                Ok(ArchiveContents::Members(members)) => first_member_gives(at, members@, r),
            };
        assert(reg@.archives[i].may_open(source, opened));
        if let Ok(ArchiveContents::Members(members)) = opened {
            let k = choose|k: int|
                0 <= k < members@.len() && members_pass(at, members@, k)
                    && #[trigger] member_child(at, members@, k, r);
            if k > 0 {
                assert(member_child(at, members@, 0, Ok(None)));
            }
        }
    }
}

} // verus!

//! The laws of the resolver: what every resolve keeps, whatever the probers answer.

use vstd::prelude::*;

use crate::archive::{ArchiveContents, Member};
use crate::encryption::{DynCredentials, EncryptionLayer, EncryptionScheme};
use crate::error::{VfsError, VfsResult};
use crate::fs::FsKind;
use crate::pathspec::LayerModel;
use crate::registry::{
    Confidence, ContainerFormat, EncryptionProbe, RegistryModel, VolumeSystemProbe, WindowModel,
};
use crate::resolver::{
    after_signatures, archive_peels, archives_from, attempts_from, child_decides, container_decodes,
    containers_from, descends, filesystems_from, fs_layer, is_terminal, members_from, mounts,
    packaging, peel_site, peels, plaintext_decides, resolve_site, resolves, signature_decrypts,
    signatures_from, sniffs, volume_system_opens, volume_systems_from, volumes_from, Resolved,
    ResolvedSource, Site, MAX_DEPTH,
};
use crate::source::DynSource;
use crate::volume::{VolumeDesc, VolumeScheme, VolumeSystem};

verus! {

broadcast use vstd::seq::group_seq_axioms;

// ---------------------------------------------------------------------------
// The depth cap
// ---------------------------------------------------------------------------

/// Past the depth cap a resolve gives nothing, and so does a peel: a container that
/// holds itself cannot recurse without end.
pub proof fn past_the_cap_nothing_resolves(
    reg: RegistryModel,
    creds: DynCredentials,
    source: DynSource,
    spec: Seq<LayerModel>,
    depth: int,
    r: VfsResult<Option<Resolved>>,
    p: VfsResult<Option<ResolvedSource>>,
)
    requires
        depth > MAX_DEPTH,
    ensures
        resolves(reg, creds, source, spec, depth, r) <==> r == Ok::<Option<Resolved>, VfsError>(
            None,
        ),
        peels(reg, source, spec, depth, p) <==> p == Ok::<Option<ResolvedSource>, VfsError>(None),
{
}

// ---------------------------------------------------------------------------
// Locators
// ---------------------------------------------------------------------------

/// A layer that packaging adds: a container or an archive.
pub open spec fn is_packaging(l: LayerModel) -> bool {
    l is Container || l is Archive
}

/// A layer that a descent adds below the filesystem.
pub open spec fn is_descent(l: LayerModel) -> bool {
    l is Container || l is Archive || l is Volume || l is Encryption
}

/// `longer` is `spec` and then layers that satisfy `ok`, at most `n` of them.
pub open spec fn extends(
    spec: Seq<LayerModel>,
    longer: Seq<LayerModel>,
    ok: spec_fn(LayerModel) -> bool,
    n: int,
) -> bool {
    &&& spec.len() <= longer.len() <= spec.len() + n
    &&& longer.take(spec.len() as int) == spec
    &&& forall|i: int| spec.len() <= i < longer.len() ==> ok(#[trigger] longer[i])
}

proof fn lemma_extends_push(
    spec: Seq<LayerModel>,
    l: LayerModel,
    longer: Seq<LayerModel>,
    ok: spec_fn(LayerModel) -> bool,
    n: int,
)
    requires
        ok(l),
        extends(spec.push(l), longer, ok, n),
    ensures
        extends(spec, longer, ok, n + 1),
{
    assert(longer.take((spec.len() + 1) as int)[spec.len() as int] == l);
    assert(longer.take(spec.len() as int) =~= longer.take((spec.len() + 1) as int).take(
        spec.len() as int,
    ));
    assert(spec.push(l).take(spec.len() as int) =~= spec);
}

/// A property of outcomes that passes from a child to its parent: `good(sp, r)` says
/// that `r` is a fitting outcome at locator `sp`.
pub open spec fn passes_up<T>(
    at: Site<T>,
    ok: spec_fn(LayerModel) -> bool,
    good: spec_fn(VfsResult<Option<T>>) -> bool,
) -> bool {
    &&& forall|e: VfsError| #[trigger] good(Err::<Option<T>, VfsError>(e))
    &&& forall|child: DynSource, l: LayerModel, c: VfsResult<Option<T>>|
        ok(l) && #[trigger] (at.k)(child, at.spec.push(l), c) ==> good(c)
}

proof fn lemma_child<T>(
    at: Site<T>,
    ok: spec_fn(LayerModel) -> bool,
    good: spec_fn(VfsResult<Option<T>>) -> bool,
    child: DynSource,
    l: LayerModel,
    r: VfsResult<Option<T>>,
    rest: bool,
)
    requires
        passes_up(at, ok, good),
        ok(l),
        child_decides(at, child, l, r, rest),
        rest ==> good(r),
    ensures
        good(r),
{
}

proof fn lemma_containers<T>(
    at: Site<T>,
    ok: spec_fn(LayerModel) -> bool,
    good: spec_fn(VfsResult<Option<T>>) -> bool,
    i: int,
    r: VfsResult<Option<T>>,
    rest: bool,
)
    requires
        passes_up(at, ok, good),
        forall|l: LayerModel| is_packaging(l) ==> #[trigger] ok(l),
        0 <= i,
        containers_from(at, i, r, rest),
        rest ==> good(r),
    ensures
        good(r),
    decreases at.reg.containers.len() - i,
{
    if i < at.reg.containers.len() {
        let next = containers_from(at, i + 1, r, rest);
        if next {
            lemma_containers(at, ok, good, i + 1, r, rest);
        }
        let q = &at.reg.containers[i];
        if container_decodes(at, q, r, next) {
            let opened = choose|opened: VfsResult<DynSource>|
                {
                    &&& #[trigger] q.may_open(at.source, opened)
                    &&& match opened {
                        Err(e) => r == Err::<Option<T>, VfsError>(e),
                        Ok(payload) => exists|format: ContainerFormat|
                            {
                                &&& #[trigger] q.may_format(format)
                                &&& child_decides(
                                    at,
                                    payload,
                                    LayerModel::Container { format },
                                    r,
                                    next,
                                )
                            },
                    }
                };
            if let Ok(payload) = opened {
                let format = choose|format: ContainerFormat|
                    {
                        &&& #[trigger] q.may_format(format)
                        &&& child_decides(at, payload, LayerModel::Container { format }, r, next)
                    };
                let l = LayerModel::Container { format };
                assert(ok(l));
                lemma_child(at, ok, good, payload, l, r, next);
            }
        }
    }
}

proof fn lemma_members<T>(
    at: Site<T>,
    ok: spec_fn(LayerModel) -> bool,
    good: spec_fn(VfsResult<Option<T>>) -> bool,
    members: Seq<Member>,
    j: int,
    r: VfsResult<Option<T>>,
    rest: bool,
)
    requires
        passes_up(at, ok, good),
        forall|l: LayerModel| is_packaging(l) ==> #[trigger] ok(l),
        0 <= j,
        members_from(at, members, j, r, rest),
        rest ==> good(r),
    ensures
        good(r),
    decreases members.len() - j,
{
    if j < members.len() {
        let next = members_from(at, members, j + 1, r, rest);
        if next {
            lemma_members(at, ok, good, members, j + 1, r, rest);
        }
        let l = LayerModel::Archive { member: Some(j as usize) };
        assert(ok(l));
        lemma_child(at, ok, good, members[j].source, l, r, next);
    }
}

proof fn lemma_archives<T>(
    at: Site<T>,
    ok: spec_fn(LayerModel) -> bool,
    good: spec_fn(VfsResult<Option<T>>) -> bool,
    i: int,
    r: VfsResult<Option<T>>,
    rest: bool,
)
    requires
        passes_up(at, ok, good),
        forall|l: LayerModel| is_packaging(l) ==> #[trigger] ok(l),
        0 <= i,
        archives_from(at, i, r, rest),
        rest ==> good(r),
    ensures
        good(r),
    decreases at.reg.archives.len() - i,
{
    if i < at.reg.archives.len() {
        let next = archives_from(at, i + 1, r, rest);
        if next {
            lemma_archives(at, ok, good, i + 1, r, rest);
        }
        let q = &at.reg.archives[i];
        if archive_peels(at, q, r, next) {
            let opened = choose|opened: VfsResult<ArchiveContents>|
                {
                    &&& #[trigger] q.may_open(at.source, opened)
                    &&& match opened {
                        Err(e) => r == Err::<Option<T>, VfsError>(e),
                        Ok(ArchiveContents::Stream(inner)) => child_decides(
                            at,
                            inner,
                            LayerModel::Archive { member: None },
                            r,
                            next,
                        ),
                        Ok(ArchiveContents::Members(members)) => members_from(
                            at,
                            members@,
                            0,
                            r,
                            next,
                        ),
                    }
                };
            match opened {
                Err(_) => {},
                Ok(ArchiveContents::Stream(inner)) => {
                    let l = LayerModel::Archive { member: None };
                    assert(ok(l));
                    lemma_child(at, ok, good, inner, l, r, next);
                },
                Ok(ArchiveContents::Members(members)) => {
                    lemma_members(at, ok, good, members@, 0, r, next);
                },
            }
        }
    }
}

proof fn lemma_packaging<T>(
    at: Site<T>,
    ok: spec_fn(LayerModel) -> bool,
    good: spec_fn(VfsResult<Option<T>>) -> bool,
    r: VfsResult<Option<T>>,
    rest: bool,
)
    requires
        passes_up(at, ok, good),
        forall|l: LayerModel| is_packaging(l) ==> #[trigger] ok(l),
        packaging(at, r, rest),
        rest ==> good(r),
    ensures
        good(r),
{
    let next = archives_from(at, 0, r, rest);
    if next {
        lemma_archives(at, ok, good, 0, r, rest);
    }
    lemma_containers(at, ok, good, 0, r, next);
}

/// A peel only ever adds packaging layers to the locator, one for each level: it
/// never mounts a filesystem, opens a volume or decrypts.
pub proof fn a_peel_adds_packaging_layers_only(
    reg: RegistryModel,
    source: DynSource,
    spec: Seq<LayerModel>,
    depth: int,
    r: VfsResult<Option<ResolvedSource>>,
)
    requires
        peels(reg, source, spec, depth, r),
    ensures
        r matches Ok(Some(out)) ==> extends(
            spec,
            out.spec@,
            |l: LayerModel| is_packaging(l),
            MAX_DEPTH - depth,
        ),
    decreases MAX_DEPTH + 1 - depth,
{
    if depth <= MAX_DEPTH {
        let w = choose|w: VfsResult<WindowModel>|
            {
                &&& #[trigger] sniffs(source, w)
                &&& match w {
                    Err(e) => r == Err::<Option<ResolvedSource>, VfsError>(e),
                    Ok(w) => packaging(
                        peel_site(reg, w, source, spec, depth),
                        r,
                        is_terminal(r, source, spec),
                    ),
                }
            };
        if let Ok(w) = w {
            let at = peel_site(reg, w, source, spec, depth);
            let ok = |l: LayerModel| is_packaging(l);
            let good = |c: VfsResult<Option<ResolvedSource>>|
                c matches Ok(Some(out)) ==> extends(spec, out.spec@, ok, MAX_DEPTH - depth);
            assert(passes_up(at, ok, good)) by {
                assert forall|child: DynSource, l: LayerModel, c: VfsResult<Option<ResolvedSource>>|
                    ok(l) && #[trigger] (at.k)(child, at.spec.push(l), c) implies good(c) by {
                    assert(peels(reg, child, spec.push(l), depth + 1, c));
                    a_peel_adds_packaging_layers_only(reg, child, spec.push(l), depth + 1, c);
                    if let Ok(Some(out)) = c {
                        lemma_extends_push(spec, l, out.spec@, ok, MAX_DEPTH - depth - 1);
                    }
                }
            }
            if is_terminal(r, source, spec) {
                assert(spec.take(spec.len() as int) =~= spec);
                assert(good(r));
            }
            lemma_packaging(at, ok, good, r, is_terminal(r, source, spec));
            assert(good(r));
        }
    }
}

proof fn lemma_volumes(
    at: Site<Resolved>,
    ok: spec_fn(LayerModel) -> bool,
    good: spec_fn(VfsResult<Option<Resolved>>) -> bool,
    p: &Box<dyn VolumeSystemProbe>,
    sys: &Box<dyn VolumeSystem>,
    n: int,
    j: int,
    r: VfsResult<Option<Resolved>>,
    rest: bool,
)
    requires
        passes_up(at, ok, good),
        forall|l: LayerModel| is_descent(l) ==> #[trigger] ok(l),
        0 <= j,
        volumes_from(at, p, sys, n, j, r, rest),
        rest ==> good(r),
    ensures
        good(r),
    decreases n - j,
{
    if j < n {
        let next = volumes_from(at, p, sys, n, j + 1, r, rest);
        if next {
            lemma_volumes(at, ok, good, p, sys, n, j + 1, r, rest);
        }
        let opened = choose|opened: VfsResult<DynSource>|
            {
                &&& #[trigger] sys.may_open_volume(j as usize, opened)
                &&& match opened {
                    Err(e) => r == Err::<Option<Resolved>, VfsError>(e),
                    Ok(sub) => exists|scheme: VolumeScheme|
                        {
                            &&& #[trigger] p.may_scheme(scheme)
                            &&& child_decides(
                                at,
                                sub,
                                LayerModel::Volume { scheme, index: j as usize, guid: None },
                                r,
                                next,
                            )
                        },
                }
            };
        if let Ok(sub) = opened {
            let scheme = choose|scheme: VolumeScheme|
                {
                    &&& #[trigger] p.may_scheme(scheme)
                    &&& child_decides(
                        at,
                        sub,
                        LayerModel::Volume { scheme, index: j as usize, guid: None },
                        r,
                        next,
                    )
                };
            let l = LayerModel::Volume { scheme, index: j as usize, guid: None };
            assert(ok(l));
            lemma_child(at, ok, good, sub, l, r, next);
        }
    }
}

proof fn lemma_volume_systems(
    at: Site<Resolved>,
    ok: spec_fn(LayerModel) -> bool,
    good: spec_fn(VfsResult<Option<Resolved>>) -> bool,
    i: int,
    r: VfsResult<Option<Resolved>>,
    rest: bool,
)
    requires
        passes_up(at, ok, good),
        forall|l: LayerModel| is_descent(l) ==> #[trigger] ok(l),
        0 <= i,
        volume_systems_from(at, i, r, rest),
        rest ==> good(r),
    ensures
        good(r),
    decreases at.reg.volume_systems.len() - i,
{
    if i < at.reg.volume_systems.len() {
        let next = volume_systems_from(at, i + 1, r, rest);
        if next {
            lemma_volume_systems(at, ok, good, i + 1, r, rest);
        }
        let q = &at.reg.volume_systems[i];
        if volume_system_opens(at, q, r, next) {
            let opened = choose|opened: VfsResult<Box<dyn VolumeSystem>>|
                {
                    &&& #[trigger] q.may_open(at.source, opened)
                    &&& match opened {
                        Err(e) => r == Err::<Option<Resolved>, VfsError>(e),
                        Ok(sys) => exists|v: Seq<VolumeDesc>| #[trigger]
                            sys.may_volumes(v) && volumes_from(
                                at,
                                q,
                                &sys,
                                v.len() as int,
                                0,
                                r,
                                next,
                            ),
                    }
                };
            if let Ok(sys) = opened {
                let v = choose|v: Seq<VolumeDesc>| #[trigger]
                    sys.may_volumes(v) && volumes_from(at, q, &sys, v.len() as int, 0, r, next);
                lemma_volumes(at, ok, good, q, &sys, v.len() as int, 0, r, next);
            }
        }
    }
}

proof fn lemma_plaintext(
    at: Site<Resolved>,
    ok: spec_fn(LayerModel) -> bool,
    good: spec_fn(VfsResult<Option<Resolved>>) -> bool,
    p: &Box<dyn EncryptionProbe>,
    plain: DynSource,
    r: VfsResult<Option<Resolved>>,
    rest: bool,
)
    requires
        passes_up(at, ok, good),
        forall|l: LayerModel| is_descent(l) ==> #[trigger] ok(l),
        plaintext_decides(at, p, plain, r, rest),
        rest ==> good(r),
    ensures
        good(r),
{
    let scheme = choose|scheme: EncryptionScheme|
        {
            &&& #[trigger] p.may_scheme(scheme)
            &&& child_decides(at, plain, LayerModel::Encryption { scheme }, r, rest)
        };
    let l = LayerModel::Encryption { scheme };
    assert(ok(l));
    lemma_child(at, ok, good, plain, l, r, rest);
}

proof fn lemma_signatures(
    at: Site<Resolved>,
    ok: spec_fn(LayerModel) -> bool,
    good: spec_fn(VfsResult<Option<Resolved>>) -> bool,
    creds: DynCredentials,
    i: int,
    attempts: Seq<usize>,
    r: VfsResult<Option<Resolved>>,
    rest: spec_fn(Seq<usize>) -> bool,
)
    requires
        passes_up(at, ok, good),
        forall|l: LayerModel| is_descent(l) ==> #[trigger] ok(l),
        0 <= i,
        signatures_from(at, creds, i, attempts, r, rest),
        forall|a: Seq<usize>| #[trigger] rest(a) ==> good(r),
    ensures
        good(r),
    decreases at.reg.encryption.len() - i,
{
    if i < at.reg.encryption.len() {
        if signatures_from(at, creds, i + 1, attempts, r, rest) {
            lemma_signatures(at, ok, good, creds, i + 1, attempts, r, rest);
        }
        if signatures_from(at, creds, i + 1, attempts.push(i as usize), r, rest) {
            lemma_signatures(at, ok, good, creds, i + 1, attempts.push(i as usize), r, rest);
        }
        let next = signatures_from(at, creds, i + 1, attempts, r, rest);
        let q = &at.reg.encryption[i];
        if signature_decrypts(at, q, creds, r, next) {
            let opened = choose|opened: VfsResult<Box<dyn EncryptionLayer>>|
                {
                    &&& #[trigger] q.may_open(at.source, opened)
                    &&& match opened {
                        Err(e) => r == Err::<Option<Resolved>, VfsError>(e),
                        Ok(layer) => exists|d: VfsResult<DynSource>|
                            {
                                &&& #[trigger] layer.may_decrypt(creds, d)
                                &&& match d {
                                    Err(e) => r == Err::<Option<Resolved>, VfsError>(e),
                                    Ok(plain) => plaintext_decides(at, q, plain, r, next),
                                }
                            },
                    }
                };
            if let Ok(layer) = opened {
                let d = choose|d: VfsResult<DynSource>|
                    {
                        &&& #[trigger] layer.may_decrypt(creds, d)
                        &&& match d {
                            Err(e) => r == Err::<Option<Resolved>, VfsError>(e),
                            Ok(plain) => plaintext_decides(at, q, plain, r, next),
                        }
                    };
                if let Ok(plain) = d {
                    lemma_plaintext(at, ok, good, q, plain, r, next);
                }
            }
        }
    }
}

proof fn lemma_attempts(
    at: Site<Resolved>,
    ok: spec_fn(LayerModel) -> bool,
    good: spec_fn(VfsResult<Option<Resolved>>) -> bool,
    creds: DynCredentials,
    attempts: Seq<usize>,
    j: int,
    r: VfsResult<Option<Resolved>>,
)
    requires
        passes_up(at, ok, good),
        forall|l: LayerModel| is_descent(l) ==> #[trigger] ok(l),
        good(Ok::<Option<Resolved>, VfsError>(None)),
        0 <= j,
        attempts_from(at, creds, attempts, j, r),
    ensures
        good(r),
    decreases attempts.len() - j,
{
    if j < attempts.len() {
        let next = attempts_from(at, creds, attempts, j + 1, r);
        if next {
            lemma_attempts(at, ok, good, creds, attempts, j + 1, r);
        }
        let q = &at.reg.encryption[attempts[j] as int];
        let opened = choose|opened: VfsResult<Box<dyn EncryptionLayer>>|
            {
                &&& #[trigger] q.may_open(at.source, opened)
                &&& match opened {
                    Err(e) => r == Err::<Option<Resolved>, VfsError>(e),
                    Ok(layer) => exists|d: VfsResult<DynSource>|
                        {
                            &&& #[trigger] layer.may_decrypt(creds, d)
                            &&& match d {
                                Err(_) => next,
                                Ok(plain) => plaintext_decides(at, q, plain, r, next),
                            }
                        },
                }
            };
        if let Ok(layer) = opened {
            let d = choose|d: VfsResult<DynSource>|
                {
                    &&& #[trigger] layer.may_decrypt(creds, d)
                    &&& match d {
                        Err(_) => next,
                        Ok(plain) => plaintext_decides(at, q, plain, r, next),
                    }
                };
            if let Ok(plain) = d {
                lemma_plaintext(at, ok, good, q, plain, r, next);
            }
        }
    }
}

proof fn lemma_filesystems(
    at: Site<Resolved>,
    good: spec_fn(VfsResult<Option<Resolved>>) -> bool,
    i: int,
    r: VfsResult<Option<Resolved>>,
    rest: bool,
)
    requires
        forall|p: int|
            0 <= p < at.reg.filesystems.len() && #[trigger] mounts(
                &at.reg.filesystems[p],
                at.source,
                at.spec,
                r,
            ) ==> good(r),
        0 <= i,
        filesystems_from(at, i, r, rest),
        rest ==> good(r),
    ensures
        good(r),
    decreases at.reg.filesystems.len() - i,
{
    if i < at.reg.filesystems.len() {
        if filesystems_from(at, i + 1, r, rest) {
            lemma_filesystems(at, good, i + 1, r, rest);
        }
    }
}

/// What a successful resolve gives: the locator of the mounted source extends the one
/// that was given by at most `n` layers of the descent, and the locator of the
/// filesystem is that and the filesystem layer.
pub open spec fn located(spec: Seq<LayerModel>, out: Resolved, n: int) -> bool {
    &&& extends(spec, out.source_spec@, |l: LayerModel| is_descent(l), n)
    &&& exists|kind: FsKind| out.spec@ == #[trigger] out.source_spec@.push(fs_layer(kind))
}

/// A resolve that mounts a filesystem says where: its locator extends the locator of
/// the source that it was given by the layers it went through, one for each level, and
/// the filesystem layer on top.
pub proof fn a_resolve_extends_the_locator(
    reg: RegistryModel,
    creds: DynCredentials,
    source: DynSource,
    spec: Seq<LayerModel>,
    depth: int,
    r: VfsResult<Option<Resolved>>,
)
    requires
        resolves(reg, creds, source, spec, depth, r),
    ensures
        r matches Ok(Some(out)) ==> located(spec, out, MAX_DEPTH - depth),
    decreases MAX_DEPTH + 1 - depth,
{
    if depth <= MAX_DEPTH {
        let w = choose|w: VfsResult<WindowModel>|
            {
                &&& #[trigger] sniffs(source, w)
                &&& match w {
                    Err(e) => r == Err::<Option<Resolved>, VfsError>(e),
                    Ok(w) => descends(resolve_site(reg, creds, w, source, spec, depth), creds, r),
                }
            };
        if let Ok(w) = w {
            let at = resolve_site(reg, creds, w, source, spec, depth);
            let ok = |l: LayerModel| is_descent(l);
            let good = |c: VfsResult<Option<Resolved>>|
                c matches Ok(Some(out)) ==> located(spec, out, MAX_DEPTH - depth);
            assert(passes_up(at, ok, good)) by {
                assert forall|child: DynSource, l: LayerModel, c: VfsResult<Option<Resolved>>|
                    ok(l) && #[trigger] (at.k)(child, at.spec.push(l), c) implies good(c) by {
                    assert(resolves(reg, creds, child, spec.push(l), depth + 1, c));
                    a_resolve_extends_the_locator(reg, creds, child, spec.push(l), depth + 1, c);
                    if let Ok(Some(out)) = c {
                        lemma_extends_push(spec, l, out.source_spec@, ok, MAX_DEPTH - depth - 1);
                    }
                }
            }
            assert forall|p: int|
                0 <= p < at.reg.filesystems.len() && #[trigger] mounts(
                    &at.reg.filesystems[p],
                    at.source,
                    at.spec,
                    r,
                ) implies good(r) by {
                assert(spec.take(spec.len() as int) =~= spec);
                if let Ok(Some(out)) = r {
                    assert(out.source_spec@ == spec);
                    assert(exists|kind: FsKind|
                        out.spec@ == #[trigger] out.source_spec@.push(fs_layer(kind)));
                }
            }
            let tail = after_signatures(at, creds, r);
            let signatures = signatures_from(at, creds, 0, Seq::empty(), r, tail);
            let volumes = volume_systems_from(at, 0, r, signatures);
            assert forall|a: Seq<usize>| #[trigger] tail(a) implies good(r) by {
                let last = attempts_from(at, creds, a, 0, r);
                if last {
                    lemma_attempts(at, ok, good, creds, a, 0, r);
                }
                lemma_packaging(at, ok, good, r, last);
            }
            if signatures {
                lemma_signatures(at, ok, good, creds, 0, Seq::empty(), r, tail);
            }
            if volumes {
                lemma_volume_systems(at, ok, good, 0, r, signatures);
            }
            lemma_filesystems(at, good, 0, r, volumes);
            assert(good(r));
        }
    }
}

// ---------------------------------------------------------------------------
// Precedence
// ---------------------------------------------------------------------------

/// Filesystem prober `i` declines the window, whenever it is asked.
pub open spec fn filesystem_declines<T>(at: Site<T>, i: int) -> bool {
    forall|c: Confidence| #[trigger] at.reg.filesystems[i].may_probe(at.w, c) ==> c is No
}

/// Volume-system prober `i` declines the window.
pub open spec fn volume_system_declines<T>(at: Site<T>, i: int) -> bool {
    forall|c: Confidence| #[trigger] at.reg.volume_systems[i].may_probe(at.w, c) ==> c is No
}

/// Container decoder `i` declines the window.
pub open spec fn container_declines<T>(at: Site<T>, i: int) -> bool {
    forall|c: Confidence| #[trigger] at.reg.containers[i].may_probe(at.w, c) ==> c is No
}

/// Archive peeler `i` declines the window.
pub open spec fn archive_declines<T>(at: Site<T>, i: int) -> bool {
    forall|c: Confidence| #[trigger] at.reg.archives[i].may_probe(at.w, c) ==> c is No
}

/// No filesystem and no volume system claims the window.
pub open spec fn no_disk_layer<T>(at: Site<T>) -> bool {
    &&& forall|i: int|
        0 <= i < at.reg.filesystems.len() ==> #[trigger] filesystem_declines(at, i)
    &&& forall|i: int|
        0 <= i < at.reg.volume_systems.len() ==> #[trigger] volume_system_declines(at, i)
}

/// No container and no archive claims the window.
pub open spec fn no_packaging_layer<T>(at: Site<T>) -> bool {
    &&& forall|i: int|
        0 <= i < at.reg.containers.len() ==> #[trigger] container_declines(at, i)
    &&& forall|i: int| 0 <= i < at.reg.archives.len() ==> #[trigger] archive_declines(at, i)
}

proof fn lemma_filesystems_decline(
    at: Site<Resolved>,
    i: int,
    to: int,
    r: VfsResult<Option<Resolved>>,
    rest: bool,
)
    requires
        0 <= i <= to <= at.reg.filesystems.len(),
        forall|j: int| i <= j < to ==> #[trigger] filesystem_declines(at, j),
        filesystems_from(at, i, r, rest),
    ensures
        filesystems_from(at, to, r, rest),
    decreases to - i,
{
    if i < to {
        assert(filesystem_declines(at, i));
        lemma_filesystems_decline(at, i + 1, to, r, rest);
    }
}

proof fn lemma_volume_systems_decline(
    at: Site<Resolved>,
    i: int,
    r: VfsResult<Option<Resolved>>,
    rest: bool,
)
    requires
        0 <= i <= at.reg.volume_systems.len(),
        no_disk_layer(at),
        volume_systems_from(at, i, r, rest),
    ensures
        rest,
    decreases at.reg.volume_systems.len() - i,
{
    if i < at.reg.volume_systems.len() {
        assert(volume_system_declines(at, i));
        lemma_volume_systems_decline(at, i + 1, r, rest);
    }
}

proof fn lemma_containers_decline<T>(at: Site<T>, i: int, r: VfsResult<Option<T>>, rest: bool)
    requires
        0 <= i <= at.reg.containers.len(),
        no_packaging_layer(at),
        containers_from(at, i, r, rest),
    ensures
        rest,
    decreases at.reg.containers.len() - i,
{
    if i < at.reg.containers.len() {
        assert(container_declines(at, i));
        lemma_containers_decline(at, i + 1, r, rest);
    }
}

proof fn lemma_archives_decline<T>(at: Site<T>, i: int, r: VfsResult<Option<T>>, rest: bool)
    requires
        0 <= i <= at.reg.archives.len(),
        no_packaging_layer(at),
        archives_from(at, i, r, rest),
    ensures
        rest,
    decreases at.reg.archives.len() - i,
{
    if i < at.reg.archives.len() {
        assert(archive_declines(at, i));
        lemma_archives_decline(at, i + 1, r, rest);
    }
}

/// The first filesystem prober that claims the source mounts it, and what it mounts,
/// or its failure, is the outcome: no volume system, no encryption scheme (guessed or
/// identified), no container and no archive can shadow it.
pub proof fn nothing_shadows_a_filesystem(
    at: Site<Resolved>,
    creds: DynCredentials,
    i: int,
    r: VfsResult<Option<Resolved>>,
)
    requires
        0 <= i < at.reg.filesystems.len(),
        forall|j: int| 0 <= j < i ==> #[trigger] filesystem_declines(at, j),
        forall|c: Confidence| #[trigger]
            at.reg.filesystems[i].may_probe(at.w, c) ==> !(c is No),
        descends(at, creds, r),
    ensures
        mounts(&at.reg.filesystems[i], at.source, at.spec, r),
{
    let rest = volume_systems_from(
        at,
        0,
        r,
        signatures_from(at, creds, 0, Seq::empty(), r, after_signatures(at, creds, r)),
    );
    lemma_filesystems_decline(at, 0, i, r, rest);
}

/// Encryption prober `i` identifies the window as its own.
pub open spec fn encryption_claims(at: Site<Resolved>, i: int) -> bool {
    forall|c: Confidence| #[trigger] at.reg.encryption[i].may_probe(at.w, c) ==> c is Yes
}

/// Encryption prober `i` never identifies the window: it declines, or says that it
/// may be its own.
pub open spec fn encryption_only_guesses(at: Site<Resolved>, i: int) -> bool {
    forall|c: Confidence| #[trigger] at.reg.encryption[i].may_probe(at.w, c) ==> !(c is Yes)
}

/// No layer that encryption prober `i` constructs can be decrypted with `creds`.
pub open spec fn cannot_decrypt(at: Site<Resolved>, i: int, creds: DynCredentials) -> bool {
    forall|o: VfsResult<Box<dyn EncryptionLayer>>, d: VfsResult<DynSource>|
        o is Ok && #[trigger] at.reg.encryption[i].may_open(at.source, o) && #[trigger]
            o->Ok_0.may_decrypt(creds, d) ==> d is Err
}

/// Probers that can only guess leave the stage to the prober after them.
proof fn lemma_guesses_pass(
    at: Site<Resolved>,
    creds: DynCredentials,
    i: int,
    to: int,
    attempts: Seq<usize>,
    r: VfsResult<Option<Resolved>>,
    rest: spec_fn(Seq<usize>) -> bool,
) -> (after: Seq<usize>)
    requires
        0 <= i <= to <= at.reg.encryption.len(),
        forall|j: int| i <= j < to ==> #[trigger] encryption_only_guesses(at, j),
        signatures_from(at, creds, i, attempts, r, rest),
    ensures
        signatures_from(at, creds, to, after, r, rest),
    decreases to - i,
{
    if i < to {
        assert(encryption_only_guesses(at, i));
        if signatures_from(at, creds, i + 1, attempts, r, rest) {
            lemma_guesses_pass(at, creds, i + 1, to, attempts, r, rest)
        } else {
            lemma_guesses_pass(at, creds, i + 1, to, attempts.push(i as usize), r, rest)
        }
    } else {
        attempts
    }
}

proof fn lemma_filesystems_decide(at: Site<Resolved>, i: int)
    requires
        0 <= i <= at.reg.filesystems.len(),
    ensures
        !filesystems_from(at, i, Ok(None), false),
    decreases at.reg.filesystems.len() - i,
{
    if i < at.reg.filesystems.len() {
        lemma_filesystems_decide(at, i + 1);
    }
}

proof fn lemma_volumes_decide(
    at: Site<Resolved>,
    p: &Box<dyn VolumeSystemProbe>,
    sys: &Box<dyn VolumeSystem>,
    n: int,
    j: int,
)
    requires
        0 <= j,
    ensures
        !volumes_from(at, p, sys, n, j, Ok(None), false),
    decreases n - j,
{
    if j < n {
        lemma_volumes_decide(at, p, sys, n, j + 1);
    }
}

proof fn lemma_volume_system_decides(at: Site<Resolved>, p: &Box<dyn VolumeSystemProbe>)
    ensures
        !volume_system_opens(at, p, Ok(None), false),
{
    let r = Ok::<Option<Resolved>, VfsError>(None);
    if volume_system_opens(at, p, r, false) {
        let opened = choose|opened: VfsResult<Box<dyn VolumeSystem>>|
            {
                &&& #[trigger] p.may_open(at.source, opened)
                &&& match opened {
                    Err(e) => r == Err::<Option<Resolved>, VfsError>(e),
                    Ok(sys) => exists|v: Seq<VolumeDesc>| #[trigger]
                        sys.may_volumes(v) && volumes_from(
                            at,
                            p,
                            &sys,
                            v.len() as int,
                            0,
                            r,
                            false,
                        ),
                }
            };
        if let Ok(sys) = opened {
            let v = choose|v: Seq<VolumeDesc>| #[trigger]
                sys.may_volumes(v) && volumes_from(at, p, &sys, v.len() as int, 0, r, false);
            lemma_volumes_decide(at, p, &sys, v.len() as int, 0);
        }
    }
}

proof fn lemma_volume_systems_decide(at: Site<Resolved>, i: int)
    requires
        0 <= i <= at.reg.volume_systems.len(),
    ensures
        !volume_systems_from(at, i, Ok(None), false),
    decreases at.reg.volume_systems.len() - i,
{
    if i < at.reg.volume_systems.len() {
        lemma_volume_systems_decide(at, i + 1);
        lemma_volume_system_decides(at, &at.reg.volume_systems[i]);
    }
}

/// A layer that is identified and cannot be decrypted does not come to nothing.
proof fn lemma_undecryptable(at: Site<Resolved>, creds: DynCredentials, i: int, rest: bool)
    requires
        cannot_decrypt(at, i, creds),
    ensures
        !signature_decrypts(at, &at.reg.encryption[i], creds, Ok(None), rest),
{
    let r = Ok::<Option<Resolved>, VfsError>(None);
    let q = &at.reg.encryption[i];
    if signature_decrypts(at, q, creds, r, rest) {
        let opened = choose|opened: VfsResult<Box<dyn EncryptionLayer>>|
            {
                &&& #[trigger] q.may_open(at.source, opened)
                &&& match opened {
                    Err(e) => r == Err::<Option<Resolved>, VfsError>(e),
                    Ok(layer) => exists|d: VfsResult<DynSource>|
                        {
                            &&& #[trigger] layer.may_decrypt(creds, d)
                            &&& match d {
                                Err(e) => r == Err::<Option<Resolved>, VfsError>(e),
                                Ok(plain) => plaintext_decides(at, q, plain, r, rest),
                            }
                        },
                }
            };
        assert(at.reg.encryption[i].may_open(at.source, opened));
    }
}

proof fn lemma_signatures_reach(
    at: Site<Resolved>,
    creds: DynCredentials,
    i: int,
    n: int,
    attempts: Seq<usize>,
    rest: spec_fn(Seq<usize>) -> bool,
)
    requires
        0 <= i <= n < at.reg.encryption.len(),
        encryption_claims(at, n),
        cannot_decrypt(at, n, creds),
    ensures
        !signatures_from(at, creds, i, attempts, Ok(None), rest),
    decreases n - i,
{
    let next = signatures_from(at, creds, i + 1, attempts, Ok(None), rest);
    if i == n {
        assert(encryption_claims(at, i));
        lemma_undecryptable(at, creds, i, next);
    } else {
        lemma_signatures_reach(at, creds, i + 1, n, attempts, rest);
        lemma_signatures_reach(at, creds, i + 1, n, attempts.push(i as usize), rest);
        assert(!signature_decrypts(at, &at.reg.encryption[i], creds, Ok(None), false));
    }
}

/// Identified encryption that cannot be decrypted never lets an encrypted volume pass
/// as an unknown source: the resolve fails, or something that takes precedence over
/// the scheme was found on the source.
pub proof fn identified_encryption_is_never_skipped(
    at: Site<Resolved>,
    creds: DynCredentials,
    i: int,
    r: VfsResult<Option<Resolved>>,
)
    requires
        0 <= i < at.reg.encryption.len(),
        encryption_claims(at, i),
        cannot_decrypt(at, i, creds),
        descends(at, creds, r),
    ensures
        r matches Ok(found) ==> found is Some,
{
    if r == Ok::<Option<Resolved>, VfsError>(None) {
        let tail = after_signatures(at, creds, r);
        let signatures = signatures_from(at, creds, 0, Seq::empty(), r, tail);
        let volumes = volume_systems_from(at, 0, r, signatures);
        lemma_filesystems_decide(at, 0);
        assert(volumes);
        lemma_volume_systems_decide(at, 0);
        assert(signatures);
        lemma_signatures_reach(at, creds, 0, i, Seq::empty(), tail);
    }
}

/// Identified encryption that cannot be decrypted fails loudly, where nothing takes
/// precedence over the scheme: no filesystem and no volume system claims the source,
/// and the schemes before it can only be guessed.
pub proof fn identified_encryption_fails_loudly(
    at: Site<Resolved>,
    creds: DynCredentials,
    i: int,
    r: VfsResult<Option<Resolved>>,
)
    requires
        no_disk_layer(at),
        0 <= i < at.reg.encryption.len(),
        forall|j: int| 0 <= j < i ==> #[trigger] encryption_only_guesses(at, j),
        encryption_claims(at, i),
        cannot_decrypt(at, i, creds),
        descends(at, creds, r),
    ensures
        r is Err,
{
    let tail = after_signatures(at, creds, r);
    let signatures = signatures_from(at, creds, 0, Seq::empty(), r, tail);
    let rest = volume_systems_from(at, 0, r, signatures);
    lemma_filesystems_decline(at, 0, at.reg.filesystems.len() as int, r, rest);
    lemma_volume_systems_decline(at, 0, r, signatures);
    let attempts = lemma_guesses_pass(at, creds, 0, i, Seq::empty(), r, tail);
    let q = &at.reg.encryption[i];
    let next = signatures_from(at, creds, i + 1, attempts, r, tail);
    assert(encryption_claims(at, i));
    assert(signature_decrypts(at, q, creds, r, next));
    let opened = choose|opened: VfsResult<Box<dyn EncryptionLayer>>|
        {
            &&& #[trigger] q.may_open(at.source, opened)
            &&& match opened {
                Err(e) => r == Err::<Option<Resolved>, VfsError>(e),
                Ok(layer) => exists|d: VfsResult<DynSource>|
                    {
                        &&& #[trigger] layer.may_decrypt(creds, d)
                        &&& match d {
                            Err(e) => r == Err::<Option<Resolved>, VfsError>(e),
                            Ok(plain) => plaintext_decides(at, q, plain, r, next),
                        }
                    },
            }
        };
    assert(at.reg.encryption[i].may_open(at.source, opened));
}

/// No prober constructs a layer in vain: opening encryption prober `i` always gives a
/// layer.
pub open spec fn always_constructs(at: Site<Resolved>, i: int) -> bool {
    forall|o: VfsResult<Box<dyn EncryptionLayer>>| #[trigger]
        at.reg.encryption[i].may_open(at.source, o) ==> o is Ok
}

proof fn lemma_guesses(
    at: Site<Resolved>,
    creds: DynCredentials,
    i: int,
    attempts: Seq<usize>,
    r: VfsResult<Option<Resolved>>,
    rest: spec_fn(Seq<usize>) -> bool,
)
    requires
        0 <= i <= at.reg.encryption.len(),
        at.reg.encryption.len() <= usize::MAX,
        forall|j: int|
            0 <= j < at.reg.encryption.len() ==> #[trigger] encryption_only_guesses(at, j),
        forall|j: int|
            0 <= j < attempts.len() ==> #[trigger] attempts[j] < at.reg.encryption.len(),
        signatures_from(at, creds, i, attempts, r, rest),
        forall|a: Seq<usize>|
            (forall|j: int| 0 <= j < a.len() ==> #[trigger] a[j] < at.reg.encryption.len())
                && #[trigger] rest(a) ==> r == Ok::<Option<Resolved>, VfsError>(None),
    ensures
        r == Ok::<Option<Resolved>, VfsError>(None),
    decreases at.reg.encryption.len() - i,
{
    if i < at.reg.encryption.len() {
        assert(encryption_only_guesses(at, i));
        if signatures_from(at, creds, i + 1, attempts, r, rest) {
            lemma_guesses(at, creds, i + 1, attempts, r, rest);
        } else {
            lemma_guesses(at, creds, i + 1, attempts.push(i as usize), r, rest);
        }
    }
}

proof fn lemma_attempts_fail(
    at: Site<Resolved>,
    creds: DynCredentials,
    attempts: Seq<usize>,
    j: int,
    r: VfsResult<Option<Resolved>>,
)
    requires
        0 <= j <= attempts.len(),
        forall|n: int|
            0 <= n < attempts.len() ==> #[trigger] attempts[n] < at.reg.encryption.len(),
        forall|n: int| 0 <= n < at.reg.encryption.len() ==> #[trigger] always_constructs(at, n),
        forall|n: int|
            0 <= n < at.reg.encryption.len() ==> #[trigger] cannot_decrypt(at, n, creds),
        attempts_from(at, creds, attempts, j, r),
    ensures
        r == Ok::<Option<Resolved>, VfsError>(None),
    decreases attempts.len() - j,
{
    if j < attempts.len() {
        let n = attempts[j] as int;
        assert(always_constructs(at, n));
        assert(cannot_decrypt(at, n, creds));
        let q = &at.reg.encryption[n];
        let next = attempts_from(at, creds, attempts, j + 1, r);
        let opened = choose|opened: VfsResult<Box<dyn EncryptionLayer>>|
            {
                &&& #[trigger] q.may_open(at.source, opened)
                &&& match opened {
                    Err(e) => r == Err::<Option<Resolved>, VfsError>(e),
                    Ok(layer) => exists|d: VfsResult<DynSource>|
                        {
                            &&& #[trigger] layer.may_decrypt(creds, d)
                            &&& match d {
                                Err(_) => next,
                                Ok(plain) => plaintext_decides(at, q, plain, r, next),
                            }
                        },
                }
            };
        assert(at.reg.encryption[n].may_open(at.source, opened));
        assert(next);
        lemma_attempts_fail(at, creds, attempts, j + 1, r);
    }
}

/// A source that nothing recognizes resolves to nothing, and a wrong guess does not
/// change that: schemes that only guess and then fail to decrypt leave no error
/// behind.
pub proof fn an_unrecognized_source_resolves_to_nothing(
    at: Site<Resolved>,
    creds: DynCredentials,
    r: VfsResult<Option<Resolved>>,
)
    requires
        no_disk_layer(at),
        no_packaging_layer(at),
        at.reg.encryption.len() <= usize::MAX,
        forall|i: int|
            0 <= i < at.reg.encryption.len() ==> #[trigger] encryption_only_guesses(at, i),
        forall|i: int| 0 <= i < at.reg.encryption.len() ==> #[trigger] always_constructs(at, i),
        forall|i: int|
            0 <= i < at.reg.encryption.len() ==> #[trigger] cannot_decrypt(at, i, creds),
        descends(at, creds, r),
    ensures
        r == Ok::<Option<Resolved>, VfsError>(None),
{
    let tail = after_signatures(at, creds, r);
    let signatures = signatures_from(at, creds, 0, Seq::empty(), r, tail);
    let rest = volume_systems_from(at, 0, r, signatures);
    lemma_filesystems_decline(at, 0, at.reg.filesystems.len() as int, r, rest);
    lemma_volume_systems_decline(at, 0, r, signatures);
    assert forall|a: Seq<usize>|
        (forall|j: int| 0 <= j < a.len() ==> #[trigger] a[j] < at.reg.encryption.len())
            && #[trigger] tail(a) implies r == Ok::<Option<Resolved>, VfsError>(None) by {
        let last = attempts_from(at, creds, a, 0, r);
        let archives = archives_from(at, 0, r, last);
        lemma_containers_decline(at, 0, r, archives);
        lemma_archives_decline(at, 0, r, last);
        lemma_attempts_fail(at, creds, a, 0, r);
    }
    lemma_guesses(at, creds, 0, Seq::empty(), r, tail);
}

/// A source that no packaging prober claims is its own terminal: a peel gives it back
/// with its locator unchanged.
pub proof fn an_unpackaged_source_is_its_own_terminal(
    at: Site<ResolvedSource>,
    r: VfsResult<Option<ResolvedSource>>,
)
    requires
        no_packaging_layer(at),
        packaging(at, r, is_terminal(r, at.source, at.spec)),
    ensures
        is_terminal(r, at.source, at.spec),
{
    let last = is_terminal(r, at.source, at.spec);
    let archives = archives_from(at, 0, r, last);
    lemma_containers_decline(at, 0, r, archives);
    lemma_archives_decline(at, 0, r, last);
}

// ---------------------------------------------------------------------------
// A peel ends at a source
// ---------------------------------------------------------------------------

proof fn lemma_members_decide<T>(at: Site<T>, members: Seq<Member>, j: int)
    requires
        0 <= j <= members.len(),
    ensures
        !members_from(at, members, j, Ok(None), false),
    decreases members.len() - j,
{
    if j < members.len() {
        lemma_members_decide(at, members, j + 1);
    }
}

proof fn lemma_archives_decide<T>(at: Site<T>, i: int)
    requires
        0 <= i <= at.reg.archives.len(),
    ensures
        !archives_from(at, i, Ok(None), false),
    decreases at.reg.archives.len() - i,
{
    if i < at.reg.archives.len() {
        lemma_archives_decide(at, i + 1);
        assert forall|members: Seq<Member>| !#[trigger]
            members_from(at, members, 0, Ok(None), false) by {
            lemma_members_decide(at, members, 0);
        }
    }
}

proof fn lemma_containers_decide<T>(at: Site<T>, i: int)
    requires
        0 <= i <= at.reg.containers.len(),
    ensures
        !containers_from(at, i, Ok(None), false),
    decreases at.reg.containers.len() - i,
{
    if i < at.reg.containers.len() {
        lemma_containers_decide(at, i + 1);
    }
}

/// A peel within the depth cap is never empty-handed: it fails, or it gives the raw
/// source that it came to. A wrapper that leads nowhere is given back as it is.
pub proof fn a_peel_always_ends_at_a_source(
    reg: RegistryModel,
    source: DynSource,
    spec: Seq<LayerModel>,
    depth: int,
    r: VfsResult<Option<ResolvedSource>>,
)
    requires
        depth <= MAX_DEPTH,
        peels(reg, source, spec, depth, r),
    ensures
        r matches Ok(found) ==> found is Some,
{
    let w = choose|w: VfsResult<WindowModel>|
        {
            &&& #[trigger] sniffs(source, w)
            &&& match w {
                Err(e) => r == Err::<Option<ResolvedSource>, VfsError>(e),
                Ok(w) => packaging(
                    peel_site(reg, w, source, spec, depth),
                    r,
                    is_terminal(r, source, spec),
                ),
            }
        };
    if let Ok(w) = w {
        let at = peel_site(reg, w, source, spec, depth);
        lemma_archives_decide(at, 0);
        lemma_containers_decide(at, 0);
    }
}

} // verus!

//! Where a locator leads: every layer that a resolve or a peel adds to a locator names
//! what was opened there, so the layers, followed one by one from the source that was
//! given, lead to the source that came out.

use vstd::prelude::*;

use crate::archive::ArchiveContents;
use crate::encryption::{DynCredentials, EncryptionLayer, EncryptionScheme};
use crate::error::{VfsError, VfsResult};
use crate::fs::FsKind;
use crate::order_laws::{
    archive_gives, child_gives, container_gives, first_attempt_gives, first_member_gives,
    first_volume_gives, first_wrapper_gives, gives, member_child, peeling, plaintext_child,
    registered, resolving, volume_gives, volume_system_gives, volumes_pass, window_of, Attempt,
};
use crate::pathspec::{AddrModel, LayerModel};
use crate::registry::{Confidence, ContainerFormat, Registry, RegistryModel, WindowModel};
use crate::resolver::{Resolved, ResolvedSource, Site, SourceOpen};
use crate::source::DynSource;
use crate::volume::{VolumeDesc, VolumeScheme, VolumeSystem};

verus! {

broadcast use vstd::seq::group_seq_axioms;

// ---------------------------------------------------------------------------
// One layer
// ---------------------------------------------------------------------------

/// Volume `index` of a volume system of that scheme on `from` opens as `to`.
pub open spec fn leads_to_volume(
    reg: RegistryModel,
    from: DynSource,
    scheme: VolumeScheme,
    index: usize,
    to: DynSource,
) -> bool {
    exists|
        i: int,
        w: WindowModel,
        c: Confidence,
        opened: VfsResult<Box<dyn VolumeSystem>>,
        v: Seq<VolumeDesc>,
    |
        {
            &&& 0 <= i < reg.volume_systems.len()
            &&& window_of(from, w)
            &&& #[trigger] reg.volume_systems[i].may_probe(w, c)
            &&& !(c is No)
            &&& reg.volume_systems[i].may_scheme(scheme)
            &&& #[trigger] reg.volume_systems[i].may_open(from, opened)
            &&& opened is Ok
            &&& #[trigger] opened->Ok_0.may_volumes(v)
            &&& index < v.len()
            &&& opened->Ok_0.may_open_volume(index, Ok(to))
        }
}

/// A container of that format on `from` decodes to `to`.
pub open spec fn leads_to_payload(
    reg: RegistryModel,
    from: DynSource,
    format: ContainerFormat,
    to: DynSource,
) -> bool {
    exists|i: int, w: WindowModel, c: Confidence|
        {
            &&& 0 <= i < reg.containers.len()
            &&& window_of(from, w)
            &&& #[trigger] reg.containers[i].may_probe(w, c)
            &&& !(c is No)
            &&& reg.containers[i].may_format(format)
            &&& reg.containers[i].may_open(from, Ok(to))
        }
}

/// An archive on `from` has `to` as its stream, or as the member of that index.
pub open spec fn leads_to_member(
    reg: RegistryModel,
    from: DynSource,
    member: Option<usize>,
    to: DynSource,
) -> bool {
    exists|i: int, w: WindowModel, c: Confidence, opened: VfsResult<ArchiveContents>|
        {
            &&& 0 <= i < reg.archives.len()
            &&& window_of(from, w)
            &&& #[trigger] reg.archives[i].may_probe(w, c)
            &&& !(c is No)
            &&& #[trigger] reg.archives[i].may_open(from, opened)
            &&& match opened {
                Err(_) => false,
                Ok(ArchiveContents::Stream(inner)) => member is None && to == inner,
                Ok(ArchiveContents::Members(members)) => member matches Some(j) && j
                    < members@.len() && to == members@[j as int].source,
            }
        }
}

/// A scheme of that name on `from` decrypts to `to`.
pub open spec fn leads_to_plaintext(
    reg: RegistryModel,
    creds: DynCredentials,
    from: DynSource,
    scheme: EncryptionScheme,
    to: DynSource,
) -> bool {
    exists|
        i: int,
        w: WindowModel,
        c: Confidence,
        opened: VfsResult<Box<dyn EncryptionLayer>>,
    |
        {
            &&& 0 <= i < reg.encryption.len()
            &&& window_of(from, w)
            &&& #[trigger] reg.encryption[i].may_probe(w, c)
            &&& !(c is No)
            &&& reg.encryption[i].may_scheme(scheme)
            &&& #[trigger] reg.encryption[i].may_open(from, opened)
            &&& opened is Ok
            &&& opened->Ok_0.may_decrypt(creds, Ok(to))
        }
}

/// The layer, looked up on `from` with the registry's probers, opens `to`.
pub open spec fn leads(
    reg: RegistryModel,
    creds: DynCredentials,
    from: DynSource,
    layer: LayerModel,
    to: DynSource,
) -> bool {
    match layer {
        LayerModel::Volume { scheme, index, guid } => guid is None && leads_to_volume(
            reg,
            from,
            scheme,
            index,
            to,
        ),
        LayerModel::Container { format } => leads_to_payload(reg, from, format, to),
        LayerModel::Archive { member } => leads_to_member(reg, from, member, to),
        LayerModel::Encryption { scheme } => leads_to_plaintext(reg, creds, from, scheme, to),
        _ => false,
    }
}

/// The layers, looked up one by one from `from` on, open `to`.
pub open spec fn leads_along(
    reg: RegistryModel,
    creds: DynCredentials,
    from: DynSource,
    layers: Seq<LayerModel>,
    to: DynSource,
) -> bool
    decreases layers.len(),
{
    if layers.len() == 0 {
        to == from
    } else {
        exists|mid: DynSource| #[trigger]
            leads(reg, creds, from, layers[0], mid) && leads_along(
                reg,
                creds,
                mid,
                layers.skip(1),
                to,
            )
    }
}

/// The locator `longer` is `spec` and then layers that lead from `from` to `to`.
pub open spec fn locates(
    reg: RegistryModel,
    creds: DynCredentials,
    spec: Seq<LayerModel>,
    from: DynSource,
    longer: Seq<LayerModel>,
    to: DynSource,
) -> bool {
    &&& spec.len() <= longer.len()
    &&& longer.take(spec.len() as int) == spec
    &&& leads_along(reg, creds, from, longer.skip(spec.len() as int), to)
}

/// The filesystem was mounted from the source by a prober that claims it, and its locator
/// is the source's own with the layer of that prober's kind on top.
pub open spec fn mounted_there(reg: RegistryModel, out: Resolved) -> bool {
    exists|i: int, w: WindowModel, c: Confidence, kind: FsKind|
        {
            &&& 0 <= i < reg.filesystems.len()
            &&& window_of(out.source, w)
            &&& #[trigger] reg.filesystems[i].may_probe(w, c)
            &&& !(c is No)
            &&& reg.filesystems[i].may_open(out.source, Ok(out.fs))
            &&& #[trigger] reg.filesystems[i].may_kind(kind)
            &&& out.spec@ == out.source_spec@.push(
                LayerModel::Fs { kind, at: AddrModel::Path(Seq::empty()) },
            )
        }
}

proof fn lemma_locates_further(
    reg: RegistryModel,
    creds: DynCredentials,
    spec: Seq<LayerModel>,
    from: DynSource,
    layer: LayerModel,
    mid: DynSource,
    longer: Seq<LayerModel>,
    to: DynSource,
)
    requires
        leads(reg, creds, from, layer, mid),
        locates(reg, creds, spec.push(layer), mid, longer, to),
    ensures
        locates(reg, creds, spec, from, longer, to),
{
    let n = spec.len() as int;
    let tail = longer.skip(n);
    assert(longer.take(n + 1)[n] == layer);
    assert(longer.take(n) =~= longer.take(n + 1).take(n));
    assert(spec.push(layer).take(n) =~= spec);
    assert(tail.skip(1) =~= longer.skip(n + 1));
    assert(tail[0] == layer);
    assert(leads(reg, creds, from, tail[0], mid));
}

// ---------------------------------------------------------------------------
// What an attempt leads to
// ---------------------------------------------------------------------------

/// The outcome came of a child that the layer leads to.
spec fn through<T>(
    at: Site<T>,
    creds: DynCredentials,
    layer: LayerModel,
    child: DynSource,
    r: VfsResult<Option<T>>,
) -> bool {
    leads(at.reg, creds, at.source, layer, child) && child_gives(at, child, layer, r)
}

proof fn lemma_container_leads<T>(
    at: Site<T>,
    creds: DynCredentials,
    i: int,
    r: VfsResult<Option<T>>,
) -> (step: (LayerModel, DynSource))
    requires
        window_of(at.source, at.w),
        0 <= i < at.reg.containers.len(),
        container_gives(at, i, r),
        r is Ok,
    ensures
        through(at, creds, step.0, step.1, r),
        step.0 is Container,
{
    let p = &at.reg.containers[i];
    let c = choose|c: Confidence| #[trigger] p.may_probe(at.w, c) && !(c is No);
    let (payload, format) = choose|payload: DynSource, format: ContainerFormat|
        {
            &&& #[trigger] p.may_open(at.source, Ok(payload))
            &&& #[trigger] p.may_format(format)
            &&& child_gives(at, payload, LayerModel::Container { format }, r)
        };
    assert(at.reg.containers[i].may_probe(at.w, c));
    assert(leads_to_payload(at.reg, at.source, format, payload));
    (LayerModel::Container { format }, payload)
}

proof fn lemma_archive_leads<T>(
    at: Site<T>,
    creds: DynCredentials,
    i: int,
    r: VfsResult<Option<T>>,
) -> (step: (LayerModel, DynSource))
    requires
        window_of(at.source, at.w),
        0 <= i < at.reg.archives.len(),
        archive_gives(at, i, r),
        r is Ok,
    ensures
        through(at, creds, step.0, step.1, r),
        step.0 is Archive,
{
    let p = &at.reg.archives[i];
    let c = choose|c: Confidence| #[trigger] p.may_probe(at.w, c) && !(c is No);
    let opened = choose|opened: VfsResult<ArchiveContents>| #[trigger]
        p.may_open(at.source, opened) && match opened {
            Err(e) => r == Err::<Option<T>, VfsError>(e),
            Ok(ArchiveContents::Stream(inner)) => child_gives(
                at,
                inner,
                LayerModel::Archive { member: None },
                r,
            ),
            Ok(ArchiveContents::Members(members)) => first_member_gives(at, members@, r),
        };
    assert(at.reg.archives[i].may_probe(at.w, c));
    assert(at.reg.archives[i].may_open(at.source, opened));
    match opened {
        Ok(ArchiveContents::Stream(inner)) => {
            assert(leads_to_member(at.reg, at.source, None, inner));
            (LayerModel::Archive { member: None }, inner)
        },
        Ok(ArchiveContents::Members(members)) => {
            let m = choose|m: int|
                0 <= m < members@.len() && crate::order_laws::members_pass(at, members@, m)
                    && #[trigger] member_child(at, members@, m, r);
            assert(members.len() == members@.len());
            assert((m as usize) as int == m);
            let child = members@[m].source;
            assert(leads_to_member(at.reg, at.source, Some(m as usize), child));
            (LayerModel::Archive { member: Some(m as usize) }, child)
        },
        Err(_) => (LayerModel::Archive { member: None }, at.source),
    }
}

proof fn lemma_volume_leads(
    at: Site<Resolved>,
    creds: DynCredentials,
    i: int,
    r: VfsResult<Option<Resolved>>,
) -> (step: (LayerModel, DynSource))
    requires
        window_of(at.source, at.w),
        0 <= i < at.reg.volume_systems.len(),
        volume_system_gives(at, i, r),
        r is Ok,
    ensures
        through(at, creds, step.0, step.1, r),
{
    let p = &at.reg.volume_systems[i];
    let c = choose|c: Confidence| #[trigger] p.may_probe(at.w, c) && !(c is No);
    let opened = choose|opened: VfsResult<Box<dyn VolumeSystem>>| #[trigger]
        p.may_open(at.source, opened) && match opened {
            Err(e) => r == Err::<Option<Resolved>, VfsError>(e),
            Ok(sys) => exists|v: Seq<VolumeDesc>| #[trigger]
                sys.may_volumes(v) && first_volume_gives(at, p, &sys, v.len() as int, r),
        };
    let sys = opened->Ok_0;
    let v = choose|v: Seq<VolumeDesc>| #[trigger]
        sys.may_volumes(v) && first_volume_gives(at, p, &sys, v.len() as int, r);
    let m = choose|m: int|
        0 <= m < v.len() && volumes_pass(at, p, &sys, m) && #[trigger] volume_gives(
            at,
            p,
            &sys,
            m,
            r,
        );
    let index = m as usize;
    let (sub, scheme) = choose|sub: DynSource, scheme: VolumeScheme|
        {
            &&& #[trigger] sys.may_open_volume(index, Ok(sub))
            &&& #[trigger] p.may_scheme(scheme)
            &&& child_gives(at, sub, LayerModel::Volume { scheme, index, guid: None }, r)
        };
    assert(at.reg.volume_systems[i].may_probe(at.w, c));
    assert(at.reg.volume_systems[i].may_open(at.source, opened));
    assert(opened->Ok_0.may_volumes(v));
    assert(opened->Ok_0.may_open_volume(index, Ok(sub)));
    assert(leads_to_volume(at.reg, at.source, scheme, index, sub));
    (LayerModel::Volume { scheme, index, guid: None }, sub)
}

proof fn lemma_plaintext_leads(
    at: Site<Resolved>,
    creds: DynCredentials,
    i: int,
    c: Confidence,
    opened: VfsResult<Box<dyn EncryptionLayer>>,
    r: VfsResult<Option<Resolved>>,
) -> (step: (LayerModel, DynSource))
    requires
        window_of(at.source, at.w),
        0 <= i < at.reg.encryption.len(),
        at.reg.encryption[i].may_probe(at.w, c),
        !(c is No),
        at.reg.encryption[i].may_open(at.source, opened),
        opened is Ok,
        plaintext_child(at, &at.reg.encryption[i], &opened->Ok_0, creds, r),
    ensures
        through(at, creds, step.0, step.1, r),
{
    let p = &at.reg.encryption[i];
    let layer = opened->Ok_0;
    let (plain, scheme) = choose|plain: DynSource, scheme: EncryptionScheme|
        {
            &&& #[trigger] layer.may_decrypt(creds, Ok(plain))
            &&& #[trigger] p.may_scheme(scheme)
            &&& child_gives(at, plain, LayerModel::Encryption { scheme }, r)
        };
    assert(at.reg.encryption[i].may_scheme(scheme));
    assert(leads_to_plaintext(at.reg, creds, at.source, scheme, plain));
    (LayerModel::Encryption { scheme }, plain)
}

proof fn lemma_attempt_leads(
    at: Site<Resolved>,
    creds: DynCredentials,
    a: Attempt,
    r: VfsResult<Option<Resolved>>,
) -> (step: (LayerModel, DynSource))
    requires
        window_of(at.source, at.w),
        registered(at, a),
        gives(at, creds, a, r),
        r is Ok,
        !(a is Filesystem),
    ensures
        through(at, creds, step.0, step.1, r),
{
    match a {
        Attempt::VolumeSystem(i) => lemma_volume_leads(at, creds, i, r),
        Attempt::Container(i) => lemma_container_leads(at, creds, i, r),
        Attempt::Archive(i) => lemma_archive_leads(at, creds, i, r),
        Attempt::Signature(i) => {
            let p = &at.reg.encryption[i];
            let c = choose|c: Confidence| #[trigger] p.may_probe(at.w, c) && c is Yes;
            let opened = choose|opened: VfsResult<Box<dyn EncryptionLayer>>| #[trigger]
                p.may_open(at.source, opened) && match opened {
                    Err(e) => r == Err::<Option<Resolved>, VfsError>(e),
                    Ok(layer) => plaintext_child(at, p, &layer, creds, r) || (r matches Err(e)
                        && layer.may_decrypt(creds, Err(e))),
                };
            lemma_plaintext_leads(at, creds, i, c, opened, r)
        },
        Attempt::Guess(i) => {
            let p = &at.reg.encryption[i];
            let c = choose|c: Confidence| #[trigger] p.may_probe(at.w, c) && c is Maybe;
            let opened = choose|opened: VfsResult<Box<dyn EncryptionLayer>>| #[trigger]
                p.may_open(at.source, opened) && match opened {
                    Err(e) => r == Err::<Option<Resolved>, VfsError>(e),
                    Ok(layer) => plaintext_child(at, p, &layer, creds, r),
                };
            lemma_plaintext_leads(at, creds, i, c, opened, r)
        },
        Attempt::Filesystem(_) => (LayerModel::Archive { member: None }, at.source),
    }
}

// ---------------------------------------------------------------------------
// The laws
// ---------------------------------------------------------------------------

/// The locator of a mounted filesystem leads to it: its layers, looked up one by one from
/// the source that was given, open the very source that was mounted, each volume by its
/// index, each member by its own, each container and scheme by its name; and a prober
/// that claims that source mounted it.
pub proof fn a_locator_leads_to_what_was_mounted(
    reg: Registry,
    creds: DynCredentials,
    source: DynSource,
    spec: Seq<LayerModel>,
    depth: int,
    out: Resolved,
)
    requires
        reg.may_resolve(creds, source, spec, depth, Ok(Some(out))),
    ensures
        locates(reg@, creds, spec, source, out.source_spec@, out.source),
        mounted_there(reg@, out),
    decreases 9 - depth,
{
    let r = Ok::<Option<Resolved>, VfsError>(Some(out));
    crate::order_laws::the_first_attempt_that_finds_something_decides(
        reg,
        creds,
        source,
        spec,
        depth,
        r,
    );
    let w = choose|w: WindowModel|
        window_of(source, w) && #[trigger] first_attempt_gives(
            resolving(reg, creds, w, source, spec, depth),
            creds,
            r,
        );
    let at = resolving(reg, creds, w, source, spec, depth);
    let a = choose|a: Attempt|
        registered(at, a) && #[trigger] gives(at, creds, a, r)
            && crate::order_laws::all_pass_before(at, creds, a);
    if let Attempt::Filesystem(i) = a {
        let p = &at.reg.filesystems[i];
        let c = choose|c: Confidence| #[trigger] p.may_probe(at.w, c) && !(c is No);
        let kind = choose|kind: FsKind| #[trigger]
            p.may_kind(kind) && out.spec@ == at.spec.push(
                LayerModel::Fs { kind, at: AddrModel::Path(Seq::empty()) },
            );
        assert(reg@.filesystems[i].may_probe(w, c));
        assert(reg@.filesystems[i].may_kind(kind));
        assert(spec.take(spec.len() as int) =~= spec);
        assert(spec.skip(spec.len() as int) =~= Seq::<LayerModel>::empty());
    } else {
        let (layer, child) = lemma_attempt_leads(at, creds, a, r);
        assert((at.k)(child, spec.push(layer), r));
        assert(reg.may_resolve(creds, child, spec.push(layer), depth + 1, r));
        a_locator_leads_to_what_was_mounted(reg, creds, child, spec.push(layer), depth + 1, out);
        lemma_locates_further(
            reg@,
            creds,
            spec,
            source,
            layer,
            child,
            out.source_spec@,
            out.source,
        );
    }
}

/// The locator of a peeled source leads to it, through containers and archives alone.
pub proof fn a_locator_leads_to_what_was_peeled(
    reg: Registry,
    creds: DynCredentials,
    source: DynSource,
    spec: Seq<LayerModel>,
    depth: int,
    out: ResolvedSource,
)
    requires
        reg.may_peel(source, spec, depth, Ok(Some(out))),
    ensures
        locates(reg@, creds, spec, source, out.spec@, out.source),
        forall|i: int|
            spec.len() <= i < out.spec@.len() ==> (#[trigger] out.spec@[i]) is Container
                || out.spec@[i] is Archive,
    decreases 9 - depth,
{
    let r = Ok::<Option<ResolvedSource>, VfsError>(Some(out));
    crate::order_laws::the_first_wrapper_that_peels_decides(reg, source, spec, depth, r);
    let w = choose|w: WindowModel|
        window_of(source, w) && #[trigger] first_wrapper_gives(
            peeling(reg, w, source, spec, depth),
            r,
        );
    let at = peeling(reg, w, source, spec, depth);
    let from_container = exists|m: int|
        0 <= m < at.reg.containers.len() && #[trigger] container_gives(at, m, r);
    let from_archive = exists|m: int|
        0 <= m < at.reg.archives.len() && #[trigger] archive_gives(at, m, r);
    if from_container || from_archive {
        let (layer, child) = if from_container {
            let m = choose|m: int|
                0 <= m < at.reg.containers.len() && #[trigger] container_gives(at, m, r);
            lemma_container_leads(at, creds, m, r)
        } else {
            let m = choose|m: int|
                0 <= m < at.reg.archives.len() && #[trigger] archive_gives(at, m, r);
            lemma_archive_leads(at, creds, m, r)
        };
        assert((at.k)(child, spec.push(layer), r));
        assert(reg.may_peel(child, spec.push(layer), depth + 1, r));
        a_locator_leads_to_what_was_peeled(reg, creds, child, spec.push(layer), depth + 1, out);
        lemma_locates_further(reg@, creds, spec, source, layer, child, out.spec@, out.source);
        assert(out.spec@.take((spec.len() + 1) as int)[spec.len() as int] == layer);
    } else {
        assert(spec.take(spec.len() as int) =~= spec);
        assert(spec.skip(spec.len() as int) =~= Seq::<LayerModel>::empty());
    }
}

/// The probers of the registry answer for good: a layer leads to one source only.
pub open spec fn answers_for_good(reg: RegistryModel, creds: DynCredentials) -> bool {
    forall|from: DynSource, layer: LayerModel, a: DynSource, b: DynSource| #[trigger]
        leads(reg, creds, from, layer, a) && #[trigger] leads(reg, creds, from, layer, b) ==> a
            == b
}

proof fn lemma_one_end(
    reg: RegistryModel,
    creds: DynCredentials,
    from: DynSource,
    layers: Seq<LayerModel>,
    a: DynSource,
    b: DynSource,
)
    requires
        answers_for_good(reg, creds),
        leads_along(reg, creds, from, layers, a),
        leads_along(reg, creds, from, layers, b),
    ensures
        a == b,
    decreases layers.len(),
{
    if layers.len() > 0 {
        let rest = layers.skip(1);
        let x = choose|x: DynSource| #[trigger]
            leads(reg, creds, from, layers[0], x) && leads_along(reg, creds, x, rest, a);
        let y = choose|y: DynSource| #[trigger]
            leads(reg, creds, from, layers[0], y) && leads_along(reg, creds, y, rest, b);
        assert(x == y);
        lemma_one_end(reg, creds, x, rest, a, b);
    }
}

/// Filesystems that were mounted from different sources of one piece of evidence, such as
/// two volumes of one disk, have different locators.
pub proof fn different_sources_have_different_locators(
    reg: Registry,
    creds: DynCredentials,
    source: DynSource,
    spec: Seq<LayerModel>,
    depth: int,
    a: Resolved,
    b: Resolved,
)
    requires
        answers_for_good(reg@, creds),
        reg.may_resolve(creds, source, spec, depth, Ok(Some(a))),
        reg.may_resolve(creds, source, spec, depth, Ok(Some(b))),
        a.source != b.source,
    ensures
        a.source_spec@ != b.source_spec@,
        a.spec@ != b.spec@,
{
    a_locator_leads_to_what_was_mounted(reg, creds, source, spec, depth, a);
    a_locator_leads_to_what_was_mounted(reg, creds, source, spec, depth, b);
    if a.source_spec@ == b.source_spec@ {
        let layers = a.source_spec@.skip(spec.len() as int);
        lemma_one_end(reg@, creds, source, layers, a.source, b.source);
    }
    if a.spec@ == b.spec@ {
        assert(a.spec@.drop_last() =~= a.source_spec@);
        assert(b.spec@.drop_last() =~= b.source_spec@);
    }
}

} // verus!

//! The law of the guesses: an encryption scheme that can only be guessed is tried when
//! nothing else recognizes the source, and never before.
//!
//! Each stage of a descent either decides the outcome, whatever follows it, or passes,
//! whatever the outcome will be. `lemma_*_splits` says so stage by stage.

use vstd::prelude::*;

use crate::archive::{ArchiveContents, Member};
use crate::encryption::{DynCredentials, EncryptionLayer, EncryptionScheme};
use crate::error::{VfsError, VfsResult};
use crate::pathspec::LayerModel;
use crate::registry::{
    ArchiveOpen, Confidence, ContainerDecoder, ContainerFormat, EncryptionProbe, VolumeSystemProbe,
};
use crate::resolver::{
    after_signatures, archive_peels, archives_from, attempts_from, child_decides, container_decodes,
    containers_from, descends, filesystems_from, members_from, packaging, plaintext_decides,
    signature_decrypts, signatures_from, volume_system_opens, volume_systems_from, volumes_from,
    Resolved, Site,
};
use crate::source::DynSource;
use crate::volume::{VolumeDesc, VolumeScheme, VolumeSystem};

verus! {

broadcast use vstd::seq::group_seq_axioms;

/// The descent without its last stage: a scheme that may match is not tried.
pub open spec fn descends_unguessed(
    at: Site<Resolved>,
    creds: DynCredentials,
    r: VfsResult<Option<Resolved>>,
) -> bool {
    let nothing = r == Ok::<Option<Resolved>, VfsError>(None);
    filesystems_from(
        at,
        0,
        r,
        volume_systems_from(
            at,
            0,
            r,
            signatures_from(
                at,
                creds,
                0,
                Seq::empty(),
                r,
                |attempts: Seq<usize>| packaging(at, r, nothing),
            ),
        ),
    )
}

proof fn lemma_child_splits<T>(
    at: Site<T>,
    child: DynSource,
    layer: LayerModel,
    r: VfsResult<Option<T>>,
    rest: bool,
)
    requires
        child_decides(at, child, layer, r, rest),
    ensures
        (forall|b: bool| #[trigger] child_decides(at, child, layer, r, b)) || (rest
            && forall|f: VfsResult<Option<T>>| #[trigger] child_decides(at, child, layer, f, true)),
{
    let c = choose|c: VfsResult<Option<T>>|
        {
            &&& #[trigger] (at.k)(child, at.spec.push(layer), c)
            &&& match c {
                Ok(None) => rest,
                _ => r == c,
            }
        };
    assert((at.k)(child, at.spec.push(layer), c));
}

proof fn lemma_filesystems_splits(
    at: Site<Resolved>,
    i: int,
    r: VfsResult<Option<Resolved>>,
    rest: bool,
)
    requires
        0 <= i <= at.reg.filesystems.len(),
        filesystems_from(at, i, r, rest),
    ensures
        (forall|b: bool| #[trigger] filesystems_from(at, i, r, b)) || (rest && forall|
            f: VfsResult<Option<Resolved>>,
        | #[trigger] filesystems_from(at, i, f, true)),
    decreases at.reg.filesystems.len() - i,
{
    if i < at.reg.filesystems.len() {
        let c = choose|c: Confidence|
            {
                &&& #[trigger] at.reg.filesystems[i].may_probe(at.w, c)
                &&& if c is No {
                    filesystems_from(at, i + 1, r, rest)
                } else {
                    crate::resolver::mounts(&at.reg.filesystems[i], at.source, at.spec, r)
                }
            };
        assert(at.reg.filesystems[i].may_probe(at.w, c));
        if c is No {
            lemma_filesystems_splits(at, i + 1, r, rest);
            if forall|b: bool| #[trigger] filesystems_from(at, i + 1, r, b) {
                assert forall|b: bool| #[trigger] filesystems_from(at, i, r, b) by {
                    assert(filesystems_from(at, i + 1, r, b));
                }
            } else {
                assert forall|f: VfsResult<Option<Resolved>>| #[trigger]
                    filesystems_from(at, i, f, true) by {
                    assert(filesystems_from(at, i + 1, f, true));
                }
            }
        }
    }
}

proof fn lemma_volumes_splits(
    at: Site<Resolved>,
    p: &Box<dyn VolumeSystemProbe>,
    sys: &Box<dyn VolumeSystem>,
    n: int,
    j: int,
    r: VfsResult<Option<Resolved>>,
    rest: bool,
)
    requires
        0 <= j,
        volumes_from(at, p, sys, n, j, r, rest),
    ensures
        (forall|b: bool| #[trigger] volumes_from(at, p, sys, n, j, r, b)) || (rest && forall|
            f: VfsResult<Option<Resolved>>,
        | #[trigger] volumes_from(at, p, sys, n, j, f, true)),
    decreases n - j,
{
    if j < n {
        let next = volumes_from(at, p, sys, n, j + 1, r, rest);
        let opened = choose|opened: VfsResult<DynSource>|
            {
                &&& #[trigger] sys.may_open_volume(j as usize, opened)
                &&& match opened {
                    Err(e) => r == Err::<Option<Resolved>, VfsError>(e),
                    Ok(sub) => exists|scheme: VolumeScheme|
                        {
                            &&& #[trigger] p.may_scheme(scheme)
                            &&& child_decides(
                                at,
                                sub,
                                LayerModel::Volume { scheme, index: j as usize, guid: None },
                                r,
                                next,
                            )
                        },
                }
            };
        assert(sys.may_open_volume(j as usize, opened));
        if let Ok(sub) = opened {
            let scheme = choose|scheme: VolumeScheme|
                {
                    &&& #[trigger] p.may_scheme(scheme)
                    &&& child_decides(
                        at,
                        sub,
                        LayerModel::Volume { scheme, index: j as usize, guid: None },
                        r,
                        next,
                    )
                };
            let layer = LayerModel::Volume { scheme, index: j as usize, guid: None };
            assert(p.may_scheme(scheme));
            lemma_child_splits(at, sub, layer, r, next);
            if forall|b: bool| #[trigger] child_decides(at, sub, layer, r, b) {
                assert forall|b: bool| #[trigger] volumes_from(at, p, sys, n, j, r, b) by {
                    assert(child_decides(
                        at,
                        sub,
                        layer,
                        r,
                        volumes_from(at, p, sys, n, j + 1, r, b),
                    ));
                }
            } else {
                lemma_volumes_splits(at, p, sys, n, j + 1, r, rest);
                if forall|b: bool| #[trigger] volumes_from(at, p, sys, n, j + 1, r, b) {
                    assert forall|b: bool| #[trigger] volumes_from(at, p, sys, n, j, r, b) by {
                        assert(volumes_from(at, p, sys, n, j + 1, r, b));
                        assert(child_decides(at, sub, layer, r, true));
                    }
                } else {
                    assert forall|f: VfsResult<Option<Resolved>>| #[trigger]
                        volumes_from(at, p, sys, n, j, f, true) by {
                        assert(volumes_from(at, p, sys, n, j + 1, f, true));
                        assert(child_decides(at, sub, layer, f, true));
                    }
                }
            }
        }
    }
}

proof fn lemma_volume_system_splits(
    at: Site<Resolved>,
    p: &Box<dyn VolumeSystemProbe>,
    r: VfsResult<Option<Resolved>>,
    rest: bool,
)
    requires
        volume_system_opens(at, p, r, rest),
    ensures
        (forall|b: bool| #[trigger] volume_system_opens(at, p, r, b)) || (rest && forall|
            f: VfsResult<Option<Resolved>>,
        | #[trigger] volume_system_opens(at, p, f, true)),
{
    let opened = choose|opened: VfsResult<Box<dyn VolumeSystem>>|
        {
            &&& #[trigger] p.may_open(at.source, opened)
            &&& match opened {
                Err(e) => r == Err::<Option<Resolved>, VfsError>(e),
                Ok(sys) => exists|v: Seq<VolumeDesc>| #[trigger]
                    sys.may_volumes(v) && volumes_from(at, p, &sys, v.len() as int, 0, r, rest),
            }
        };
    assert(p.may_open(at.source, opened));
    if let Ok(sys) = opened {
        let v = choose|v: Seq<VolumeDesc>| #[trigger]
            sys.may_volumes(v) && volumes_from(at, p, &sys, v.len() as int, 0, r, rest);
        let n = v.len() as int;
        assert(sys.may_volumes(v));
        lemma_volumes_splits(at, p, &sys, n, 0, r, rest);
        if forall|b: bool| #[trigger] volumes_from(at, p, &sys, n, 0, r, b) {
            assert forall|b: bool| #[trigger] volume_system_opens(at, p, r, b) by {
                assert(volumes_from(at, p, &sys, n, 0, r, b));
            }
        } else {
            assert forall|f: VfsResult<Option<Resolved>>| #[trigger]
                volume_system_opens(at, p, f, true) by {
                assert(volumes_from(at, p, &sys, n, 0, f, true));
            }
        }
    }
}

proof fn lemma_volume_systems_splits(
    at: Site<Resolved>,
    i: int,
    r: VfsResult<Option<Resolved>>,
    rest: bool,
)
    requires
        0 <= i <= at.reg.volume_systems.len(),
        volume_systems_from(at, i, r, rest),
    ensures
        (forall|b: bool| #[trigger] volume_systems_from(at, i, r, b)) || (rest && forall|
            f: VfsResult<Option<Resolved>>,
        | #[trigger] volume_systems_from(at, i, f, true)),
    decreases at.reg.volume_systems.len() - i,
{
    if i < at.reg.volume_systems.len() {
        let p = &at.reg.volume_systems[i];
        let next = volume_systems_from(at, i + 1, r, rest);
        let c = choose|c: Confidence|
            {
                &&& #[trigger] p.may_probe(at.w, c)
                &&& if c is No {
                    next
                } else {
                    volume_system_opens(at, p, r, next)
                }
            };
        assert(at.reg.volume_systems[i].may_probe(at.w, c));
        if !(c is No) {
            lemma_volume_system_splits(at, p, r, next);
        }
        if !(c is No) && (forall|b: bool| #[trigger] volume_system_opens(at, p, r, b)) {
            assert forall|b: bool| #[trigger] volume_systems_from(at, i, r, b) by {
                assert(volume_system_opens(at, p, r, volume_systems_from(at, i + 1, r, b)));
            }
        } else {
            lemma_volume_systems_splits(at, i + 1, r, rest);
            if forall|b: bool| #[trigger] volume_systems_from(at, i + 1, r, b) {
                assert forall|b: bool| #[trigger] volume_systems_from(at, i, r, b) by {
                    assert(volume_systems_from(at, i + 1, r, b));
                    assert(c is No || volume_system_opens(at, p, r, true));
                }
            } else {
                assert forall|f: VfsResult<Option<Resolved>>| #[trigger]
                    volume_systems_from(at, i, f, true) by {
                    assert(volume_systems_from(at, i + 1, f, true));
                    assert(c is No || volume_system_opens(at, p, f, true));
                }
            }
        }
    }
}

proof fn lemma_container_splits<T>(
    at: Site<T>,
    p: &Box<dyn ContainerDecoder>,
    r: VfsResult<Option<T>>,
    rest: bool,
)
    requires
        container_decodes(at, p, r, rest),
    ensures
        (forall|b: bool| #[trigger] container_decodes(at, p, r, b)) || (rest && forall|
            f: VfsResult<Option<T>>,
        | #[trigger] container_decodes(at, p, f, true)),
{
    let opened = choose|opened: VfsResult<DynSource>|
        {
            &&& #[trigger] p.may_open(at.source, opened)
            &&& match opened {
                Err(e) => r == Err::<Option<T>, VfsError>(e),
                Ok(payload) => exists|format: ContainerFormat|
                    {
                        &&& #[trigger] p.may_format(format)
                        &&& child_decides(at, payload, LayerModel::Container { format }, r, rest)
                    },
            }
        };
    assert(p.may_open(at.source, opened));
    if let Ok(payload) = opened {
        let format = choose|format: ContainerFormat|
            {
                &&& #[trigger] p.may_format(format)
                &&& child_decides(at, payload, LayerModel::Container { format }, r, rest)
            };
        let layer = LayerModel::Container { format };
        assert(p.may_format(format));
        lemma_child_splits(at, payload, layer, r, rest);
        if forall|b: bool| #[trigger] child_decides(at, payload, layer, r, b) {
            assert forall|b: bool| #[trigger] container_decodes(at, p, r, b) by {
                assert(child_decides(at, payload, layer, r, b));
            }
        } else {
            assert forall|f: VfsResult<Option<T>>| #[trigger] container_decodes(at, p, f, true) by {
                assert(child_decides(at, payload, layer, f, true));
            }
        }
    }
}

proof fn lemma_containers_splits<T>(at: Site<T>, i: int, r: VfsResult<Option<T>>, rest: bool)
    requires
        0 <= i <= at.reg.containers.len(),
        containers_from(at, i, r, rest),
    ensures
        (forall|b: bool| #[trigger] containers_from(at, i, r, b)) || (rest && forall|
            f: VfsResult<Option<T>>,
        | #[trigger] containers_from(at, i, f, true)),
    decreases at.reg.containers.len() - i,
{
    if i < at.reg.containers.len() {
        let p = &at.reg.containers[i];
        let next = containers_from(at, i + 1, r, rest);
        let c = choose|c: Confidence|
            {
                &&& #[trigger] p.may_probe(at.w, c)
                &&& if c is No {
                    next
                } else {
                    container_decodes(at, p, r, next)
                }
            };
        assert(at.reg.containers[i].may_probe(at.w, c));
        if !(c is No) {
            lemma_container_splits(at, p, r, next);
        }
        if !(c is No) && (forall|b: bool| #[trigger] container_decodes(at, p, r, b)) {
            assert forall|b: bool| #[trigger] containers_from(at, i, r, b) by {
                assert(container_decodes(at, p, r, containers_from(at, i + 1, r, b)));
            }
        } else {
            lemma_containers_splits(at, i + 1, r, rest);
            if forall|b: bool| #[trigger] containers_from(at, i + 1, r, b) {
                assert forall|b: bool| #[trigger] containers_from(at, i, r, b) by {
                    assert(containers_from(at, i + 1, r, b));
                    assert(c is No || container_decodes(at, p, r, true));
                }
            } else {
                assert forall|f: VfsResult<Option<T>>| #[trigger]
                    containers_from(at, i, f, true) by {
                    assert(containers_from(at, i + 1, f, true));
                    assert(c is No || container_decodes(at, p, f, true));
                }
            }
        }
    }
}

proof fn lemma_members_splits<T>(
    at: Site<T>,
    members: Seq<Member>,
    j: int,
    r: VfsResult<Option<T>>,
    rest: bool,
)
    requires
        0 <= j <= members.len(),
        members_from(at, members, j, r, rest),
    ensures
        (forall|b: bool| #[trigger] members_from(at, members, j, r, b)) || (rest && forall|
            f: VfsResult<Option<T>>,
        | #[trigger] members_from(at, members, j, f, true)),
    decreases members.len() - j,
{
    if j < members.len() {
        let child = members[j].source;
        let layer = LayerModel::Archive { member: Some(j as usize) };
        let next = members_from(at, members, j + 1, r, rest);
        lemma_child_splits(at, child, layer, r, next);
        if forall|b: bool| #[trigger] child_decides(at, child, layer, r, b) {
            assert forall|b: bool| #[trigger] members_from(at, members, j, r, b) by {
                assert(child_decides(at, child, layer, r, members_from(at, members, j + 1, r, b)));
            }
        } else {
            lemma_members_splits(at, members, j + 1, r, rest);
            if forall|b: bool| #[trigger] members_from(at, members, j + 1, r, b) {
                assert forall|b: bool| #[trigger] members_from(at, members, j, r, b) by {
                    assert(members_from(at, members, j + 1, r, b));
                    assert(child_decides(at, child, layer, r, true));
                }
            } else {
                assert forall|f: VfsResult<Option<T>>| #[trigger]
                    members_from(at, members, j, f, true) by {
                    assert(members_from(at, members, j + 1, f, true));
                    assert(child_decides(at, child, layer, f, true));
                }
            }
        }
    }
}

proof fn lemma_archive_splits<T>(
    at: Site<T>,
    p: &Box<dyn ArchiveOpen>,
    r: VfsResult<Option<T>>,
    rest: bool,
)
    requires
        archive_peels(at, p, r, rest),
    ensures
        (forall|b: bool| #[trigger] archive_peels(at, p, r, b)) || (rest && forall|
            f: VfsResult<Option<T>>,
        | #[trigger] archive_peels(at, p, f, true)),
{
    let opened = choose|opened: VfsResult<ArchiveContents>|
        {
            &&& #[trigger] p.may_open(at.source, opened)
            &&& match opened {
                Err(e) => r == Err::<Option<T>, VfsError>(e),
                Ok(ArchiveContents::Stream(inner)) => child_decides(
                    at,
                    inner,
                    LayerModel::Archive { member: None },
                    r,
                    rest,
                ),
                Ok(ArchiveContents::Members(members)) => members_from(at, members@, 0, r, rest),
            }
        };
    assert(p.may_open(at.source, opened));
    match opened {
        Err(_) => {},
        Ok(ArchiveContents::Stream(inner)) => {
            let layer = LayerModel::Archive { member: None };
            lemma_child_splits(at, inner, layer, r, rest);
            if forall|b: bool| #[trigger] child_decides(at, inner, layer, r, b) {
                assert forall|b: bool| #[trigger] archive_peels(at, p, r, b) by {
                    assert(child_decides(at, inner, layer, r, b));
                }
            } else {
                assert forall|f: VfsResult<Option<T>>| #[trigger] archive_peels(at, p, f, true) by {
                    assert(child_decides(at, inner, layer, f, true));
                }
            }
        },
        Ok(ArchiveContents::Members(members)) => {
            lemma_members_splits(at, members@, 0, r, rest);
            if forall|b: bool| #[trigger] members_from(at, members@, 0, r, b) {
                assert forall|b: bool| #[trigger] archive_peels(at, p, r, b) by {
                    assert(members_from(at, members@, 0, r, b));
                }
            } else {
                assert forall|f: VfsResult<Option<T>>| #[trigger] archive_peels(at, p, f, true) by {
                    assert(members_from(at, members@, 0, f, true));
                }
            }
        },
    }
}

proof fn lemma_archives_splits<T>(at: Site<T>, i: int, r: VfsResult<Option<T>>, rest: bool)
    requires
        0 <= i <= at.reg.archives.len(),
        archives_from(at, i, r, rest),
    ensures
        (forall|b: bool| #[trigger] archives_from(at, i, r, b)) || (rest && forall|
            f: VfsResult<Option<T>>,
        | #[trigger] archives_from(at, i, f, true)),
    decreases at.reg.archives.len() - i,
{
    if i < at.reg.archives.len() {
        let p = &at.reg.archives[i];
        let next = archives_from(at, i + 1, r, rest);
        let c = choose|c: Confidence|
            {
                &&& #[trigger] p.may_probe(at.w, c)
                &&& if c is No {
                    next
                } else {
                    archive_peels(at, p, r, next)
                }
            };
        assert(at.reg.archives[i].may_probe(at.w, c));
        if !(c is No) {
            lemma_archive_splits(at, p, r, next);
        }
        if !(c is No) && (forall|b: bool| #[trigger] archive_peels(at, p, r, b)) {
            assert forall|b: bool| #[trigger] archives_from(at, i, r, b) by {
                assert(archive_peels(at, p, r, archives_from(at, i + 1, r, b)));
            }
        } else {
            lemma_archives_splits(at, i + 1, r, rest);
            if forall|b: bool| #[trigger] archives_from(at, i + 1, r, b) {
                assert forall|b: bool| #[trigger] archives_from(at, i, r, b) by {
                    assert(archives_from(at, i + 1, r, b));
                    assert(c is No || archive_peels(at, p, r, true));
                }
            } else {
                assert forall|f: VfsResult<Option<T>>| #[trigger] archives_from(at, i, f, true) by {
                    assert(archives_from(at, i + 1, f, true));
                    assert(c is No || archive_peels(at, p, f, true));
                }
            }
        }
    }
}

proof fn lemma_packaging_splits<T>(at: Site<T>, r: VfsResult<Option<T>>, rest: bool)
    requires
        packaging(at, r, rest),
    ensures
        (forall|b: bool| #[trigger] packaging(at, r, b)) || (rest && forall|
            f: VfsResult<Option<T>>,
        | #[trigger] packaging(at, f, true)),
{
    let archives = archives_from(at, 0, r, rest);
    lemma_containers_splits(at, 0, r, archives);
    if forall|b: bool| #[trigger] containers_from(at, 0, r, b) {
        assert forall|b: bool| #[trigger] packaging(at, r, b) by {
            assert(containers_from(at, 0, r, archives_from(at, 0, r, b)));
        }
    } else {
        lemma_archives_splits(at, 0, r, rest);
        if forall|b: bool| #[trigger] archives_from(at, 0, r, b) {
            assert forall|b: bool| #[trigger] packaging(at, r, b) by {
                assert(archives_from(at, 0, r, b));
                assert(containers_from(at, 0, r, true));
            }
        } else {
            assert forall|f: VfsResult<Option<T>>| #[trigger] packaging(at, f, true) by {
                assert(archives_from(at, 0, f, true));
                assert(containers_from(at, 0, f, true));
            }
        }
    }
}

proof fn lemma_signature_splits(
    at: Site<Resolved>,
    p: &Box<dyn EncryptionProbe>,
    creds: DynCredentials,
    r: VfsResult<Option<Resolved>>,
    rest: bool,
)
    requires
        signature_decrypts(at, p, creds, r, rest),
    ensures
        (forall|b: bool| #[trigger] signature_decrypts(at, p, creds, r, b)) || (rest && forall|
            f: VfsResult<Option<Resolved>>,
        | #[trigger] signature_decrypts(at, p, creds, f, true)),
{
    let opened = choose|opened: VfsResult<Box<dyn EncryptionLayer>>|
        {
            &&& #[trigger] p.may_open(at.source, opened)
            &&& match opened {
                Err(e) => r == Err::<Option<Resolved>, VfsError>(e),
                Ok(layer) => exists|d: VfsResult<DynSource>|
                    {
                        &&& #[trigger] layer.may_decrypt(creds, d)
                        &&& match d {
                            Err(e) => r == Err::<Option<Resolved>, VfsError>(e),
                            Ok(plain) => plaintext_decides(at, p, plain, r, rest),
                        }
                    },
            }
        };
    assert(p.may_open(at.source, opened));
    if let Ok(layer) = opened {
        let d = choose|d: VfsResult<DynSource>|
            {
                &&& #[trigger] layer.may_decrypt(creds, d)
                &&& match d {
                    Err(e) => r == Err::<Option<Resolved>, VfsError>(e),
                    Ok(plain) => plaintext_decides(at, p, plain, r, rest),
                }
            };
        assert(layer.may_decrypt(creds, d));
        if let Ok(plain) = d {
            let scheme = choose|scheme: EncryptionScheme|
                {
                    &&& #[trigger] p.may_scheme(scheme)
                    &&& child_decides(at, plain, LayerModel::Encryption { scheme }, r, rest)
                };
            let l = LayerModel::Encryption { scheme };
            assert(p.may_scheme(scheme));
            lemma_child_splits(at, plain, l, r, rest);
            if forall|b: bool| #[trigger] child_decides(at, plain, l, r, b) {
                assert forall|b: bool| #[trigger] signature_decrypts(at, p, creds, r, b) by {
                    assert(child_decides(at, plain, l, r, b));
                    assert(plaintext_decides(at, p, plain, r, b));
                }
            } else {
                assert forall|f: VfsResult<Option<Resolved>>| #[trigger]
                    signature_decrypts(at, p, creds, f, true) by {
                    assert(child_decides(at, plain, l, f, true));
                    assert(plaintext_decides(at, p, plain, f, true));
                }
            }
        }
    }
}

/// The signature stage from the `i`th prober on passes, whatever the outcome will be,
/// and leaves the schemes `a` to be guessed.
spec fn signatures_pass(
    at: Site<Resolved>,
    creds: DynCredentials,
    i: int,
    attempts: Seq<usize>,
    a: Seq<usize>,
) -> bool {
    forall|f: VfsResult<Option<Resolved>>, q: spec_fn(Seq<usize>) -> bool|
        q(a) ==> #[trigger] signatures_from(at, creds, i, attempts, f, q)
}

proof fn lemma_signatures_splits(
    at: Site<Resolved>,
    creds: DynCredentials,
    i: int,
    attempts: Seq<usize>,
    r: VfsResult<Option<Resolved>>,
    rest: spec_fn(Seq<usize>) -> bool,
)
    requires
        0 <= i <= at.reg.encryption.len(),
        signatures_from(at, creds, i, attempts, r, rest),
    ensures
        (forall|q: spec_fn(Seq<usize>) -> bool| #[trigger]
            signatures_from(at, creds, i, attempts, r, q)) || (exists|a: Seq<usize>|
            rest(a) && #[trigger] signatures_pass(at, creds, i, attempts, a)),
    decreases at.reg.encryption.len() - i,
{
    if i == at.reg.encryption.len() {
        assert(signatures_pass(at, creds, i, attempts, attempts));
    } else {
        let p = &at.reg.encryption[i];
        let next = signatures_from(at, creds, i + 1, attempts, r, rest);
        let c = choose|c: Confidence|
            {
                &&& #[trigger] p.may_probe(at.w, c)
                &&& match c {
                    Confidence::Yes { .. } => signature_decrypts(at, p, creds, r, next),
                    Confidence::Maybe => signatures_from(
                        at,
                        creds,
                        i + 1,
                        attempts.push(i as usize),
                        r,
                        rest,
                    ),
                    Confidence::No => next,
                }
            };
        assert(at.reg.encryption[i].may_probe(at.w, c));
        let further = if c is Maybe {
            attempts.push(i as usize)
        } else {
            attempts
        };
        if c is Yes {
            lemma_signature_splits(at, p, creds, r, next);
        }
        if c is Yes && (forall|b: bool| #[trigger] signature_decrypts(at, p, creds, r, b)) {
            assert forall|q: spec_fn(Seq<usize>) -> bool| #[trigger]
                signatures_from(at, creds, i, attempts, r, q) by {
                let b = signatures_from(at, creds, i + 1, attempts, r, q);
                assert(signature_decrypts(at, p, creds, r, b));
            }
        } else {
            lemma_signatures_splits(at, creds, i + 1, further, r, rest);
            if forall|q: spec_fn(Seq<usize>) -> bool| #[trigger]
                signatures_from(at, creds, i + 1, further, r, q) {
                assert forall|q: spec_fn(Seq<usize>) -> bool| #[trigger]
                    signatures_from(at, creds, i, attempts, r, q) by {
                    assert(signatures_from(at, creds, i + 1, further, r, q));
                    assert(!(c is Yes) || signature_decrypts(at, p, creds, r, true));
                }
            } else {
                let a = choose|a: Seq<usize>|
                    rest(a) && #[trigger] signatures_pass(at, creds, i + 1, further, a);
                assert forall|f: VfsResult<Option<Resolved>>, q: spec_fn(Seq<usize>) -> bool|
                    q(a) implies #[trigger] signatures_from(at, creds, i, attempts, f, q) by {
                    assert(signatures_from(at, creds, i + 1, further, f, q));
                    assert(!(c is Yes) || signature_decrypts(at, p, creds, f, true));
                }
                assert(signatures_pass(at, creds, i, attempts, a));
            }
        }
    }
}

/// A scheme that can only be guessed is a last resort: the outcome of a descent is one
/// that it may come to without any guess, unless without them it may come to nothing.
/// So a guess never shadows a filesystem, a volume, identified encryption, a container
/// or an archive.
pub proof fn a_guess_is_a_last_resort(
    at: Site<Resolved>,
    creds: DynCredentials,
    r: VfsResult<Option<Resolved>>,
)
    requires
        descends(at, creds, r),
    ensures
        descends_unguessed(at, creds, r) || descends_unguessed(at, creds, Ok(None)),
{
    let none = Ok::<Option<Resolved>, VfsError>(None);
    let tail = after_signatures(at, creds, r);
    let signatures = signatures_from(at, creds, 0, Seq::empty(), r, tail);
    let volumes = volume_systems_from(at, 0, r, signatures);
    let same = |a: Seq<usize>| packaging(at, r, r == none);
    let empty = |a: Seq<usize>| packaging(at, none, none == none);
    let signatures_same = signatures_from(at, creds, 0, Seq::empty(), r, same);
    let signatures_empty = signatures_from(at, creds, 0, Seq::empty(), none, empty);
    lemma_filesystems_splits(at, 0, r, volumes);
    if forall|b: bool| #[trigger] filesystems_from(at, 0, r, b) {
        assert(filesystems_from(at, 0, r, volume_systems_from(at, 0, r, signatures_same)));
    } else {
        lemma_volume_systems_splits(at, 0, r, signatures);
        if forall|b: bool| #[trigger] volume_systems_from(at, 0, r, b) {
            assert(volume_systems_from(at, 0, r, signatures_same));
            assert(filesystems_from(at, 0, r, true));
        } else {
            lemma_signatures_splits(at, creds, 0, Seq::empty(), r, tail);
            if forall|q: spec_fn(Seq<usize>) -> bool| #[trigger]
                signatures_from(at, creds, 0, Seq::empty(), r, q) {
                assert(signatures_same);
                assert(volume_systems_from(at, 0, r, true));
                assert(filesystems_from(at, 0, r, true));
            } else {
                let a = choose|a: Seq<usize>|
                    tail(a) && #[trigger] signatures_pass(at, creds, 0, Seq::empty(), a);
                let last = attempts_from(at, creds, a, 0, r);
                lemma_packaging_splits(at, r, last);
                if forall|b: bool| #[trigger] packaging(at, r, b) {
                    assert(packaging(at, r, r == none));
                    assert(same(a));
                    assert(signatures_same);
                    assert(volume_systems_from(at, 0, r, true));
                    assert(filesystems_from(at, 0, r, true));
                } else {
                    assert(packaging(at, none, true));
                    assert(empty(a));
                    assert(signatures_empty);
                    assert(volume_systems_from(at, 0, none, true));
                    assert(filesystems_from(at, 0, none, true));
                    assert(descends_unguessed(at, creds, none));
                }
            }
        }
    }
}

} // verus!

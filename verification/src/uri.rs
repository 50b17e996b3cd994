//! The lossless canonical text form of a [`PathSpec`] and its parser.
//!
//! `fvfs:` and then the layers joined by `|`. Each layer is `tag:body`; every value
//! byte outside the unreserved set is percent-encoded, so the delimiters `| : , /`
//! only ever occur as structure, and a locator read back from its text is the
//! locator that was written.

use forensicnomicon_core::FileId;
use vstd::prelude::*;
use vstd::slice::slice_subrange;
use vstd::utf8::encode_utf8;

use crate::error::VfsResult;
use crate::fs::StreamId;
use crate::grammar::writes_chain;
use crate::pathspec::{
    components, AddrModel, Guid, Layer, LayerModel, NodeAddr, PathSpec, SnapshotRef,
};
use crate::percent::{decoded_or_fault, encoded, fault, pct_decode, pct_encode, reports, Fault};
use crate::text::{
    ascii, ascii_string, decimal, hex_pair, hex_text, joined, literal, parse_hex_pair,
    parse_unsigned, push_bytes, push_decimal, push_hex_text, same_bytes, split, split_first,
    split_once, split_once_at, unsigned,
};
use crate::tokens::{
    container_name, container_named, container_token, crypto_name, crypto_named, crypto_token,
    encryption_name, encryption_named, encryption_token, fs_name, fs_named, fs_token, is_name,
    is_token, parse_container, parse_crypto, parse_encryption, parse_fs, parse_volume, volume_name,
    volume_named, volume_token,
};

verus! {

broadcast use vstd::seq::group_seq_axioms;

// ---------------------------------------------------------------------------
// The text of a locator
// ---------------------------------------------------------------------------

/// A head, a dot and a number.
pub open spec fn dotted(head: Seq<char>, a: nat) -> Seq<u8> {
    ascii(head).push('.' as u8) + decimal(a)
}

/// A head and two numbers, with dots between.
pub open spec fn dotted2(head: Seq<char>, a: nat, b: nat) -> Seq<u8> {
    ascii(head).push('.' as u8) + (decimal(a).push('.' as u8) + decimal(b))
}

/// The text of a file id.
pub open spec fn file_id_text(id: FileId) -> Seq<u8> {
    match id {
        FileId::NtfsRef { entry, seq } => dotted2("ntfsref"@, entry as nat, seq as nat),
        FileId::ExtInode { ino, gen } => dotted2("extinode"@, ino as nat, gen as nat),
        FileId::ApfsOid { oid, xid } => dotted2("apfsoid"@, oid as nat, xid as nat),
        FileId::FatDirEntry { cluster, index } => dotted2(
            "fatdirentry"@,
            cluster as nat,
            index as nat,
        ),
        FileId::IsoExtent { block } => dotted("isoextent"@, block as nat),
        FileId::Opaque(n) => dotted("opaque"@, n as nat),
        _ => Seq::empty(),
    }
}

/// The text of a stream id.
pub open spec fn stream_text(id: StreamId) -> Seq<u8> {
    match id {
        StreamId::Default => ascii("default"@),
        StreamId::Named(n) => dotted("named"@, n as nat),
        StreamId::ResourceFork => ascii("resourcefork"@),
        StreamId::Xattr(n) => dotted("xattr"@, n as nat),
        StreamId::Slack => ascii("slack"@),
    }
}

/// Each component, percent-encoded.
pub open spec fn encoded_components(cs: Seq<Seq<u8>>) -> Seq<Seq<u8>> {
    Seq::new(cs.len(), |i: int| encoded(cs[i]))
}

/// A path: a slash before each component.
pub open spec fn path_text(cs: Seq<Seq<u8>>) -> Seq<u8> {
    if cs.len() == 0 {
        Seq::empty()
    } else {
        seq!['/' as u8] + joined(encoded_components(cs), '/' as u8)
    }
}

/// The text of a node address.
pub open spec fn addr_text(a: AddrModel) -> Seq<u8> {
    match a {
        AddrModel::Path(cs) => seq!['p' as u8] + path_text(cs),
        AddrModel::File(id) => seq!['f' as u8, '/' as u8] + file_id_text(id),
        AddrModel::Both { path, id } => seq!['b' as u8, '/' as u8] + (file_id_text(id)
            + path_text(path)),
    }
}

/// What follows the tag of a layer.
pub open spec fn body_text(l: LayerModel) -> Seq<u8> {
    match l {
        LayerModel::Os { path } => encoded(path),
        LayerModel::Range { start, len } => decimal(start as nat).push(',' as u8) + decimal(
            len as nat,
        ),
        LayerModel::Container { format } => ascii(container_name(format)),
        LayerModel::Volume { scheme, index, guid } => match guid {
            None => ascii(volume_name(scheme)).push(',' as u8) + decimal(index as nat),
            Some(g) => ascii(volume_name(scheme)).push(',' as u8) + (decimal(index as nat).push(
                ',' as u8,
            ) + hex_text(g)),
        },
        LayerModel::Crypto { scheme } => ascii(crypto_name(scheme)),
        LayerModel::Encryption { scheme } => ascii(encryption_name(scheme)),
        LayerModel::Archive { member } => match member {
            None => Seq::empty(),
            Some(i) => decimal(i as nat),
        },
        LayerModel::Snapshot { store } => match store {
            SnapshotRef::VssStore(i) => ascii("vss"@).push(',' as u8) + decimal(i as nat),
            SnapshotRef::ApfsXid(x) => ascii("apfs"@).push(',' as u8) + decimal(x as nat),
        },
        LayerModel::Fs { kind, at } => ascii(fs_name(kind)).push(',' as u8) + addr_text(at),
        LayerModel::Stream { id } => stream_text(id),
    }
}

/// The tag of a layer.
pub open spec fn tag(l: LayerModel) -> Seq<char> {
    match l {
        LayerModel::Os { .. } => "os"@,
        LayerModel::Range { .. } => "range"@,
        LayerModel::Container { .. } => "container"@,
        LayerModel::Volume { .. } => "volume"@,
        LayerModel::Crypto { .. } => "crypto"@,
        LayerModel::Encryption { .. } => "encryption"@,
        LayerModel::Archive { .. } => "archive"@,
        LayerModel::Snapshot { .. } => "snapshot"@,
        LayerModel::Fs { .. } => "fs"@,
        LayerModel::Stream { .. } => "stream"@,
    }
}

/// The text of a layer: its tag, a colon and its body.
pub open spec fn layer_text(l: LayerModel) -> Seq<u8> {
    ascii(tag(l)).push(':' as u8) + body_text(l)
}

/// The text of each layer.
pub open spec fn layer_texts(ls: Seq<LayerModel>) -> Seq<Seq<u8>> {
    Seq::new(ls.len(), |i: int| layer_text(ls[i]))
}

/// The text of a chain of layers.
pub open spec fn uri_text(ls: Seq<LayerModel>) -> Seq<u8> {
    ascii("fvfs:"@) + joined(layer_texts(ls), '|' as u8)
}

// ---------------------------------------------------------------------------
// The locator of a text
// ---------------------------------------------------------------------------

/// A number of at most `max`, or the fault.
pub open spec fn number_of(t: Seq<u8>, max: nat, detail: Seq<char>, context: Seq<u8>) -> Result<
    nat,
    Fault,
> {
    match unsigned(t, max) {
        Some(n) => Ok(n),
        None => Err(Fault { detail, context }),
    }
}

/// The number of at most `max` that the first of the parts writes; `name` is the detail
/// when there is no part.
pub open spec fn part_number(
    parts: Seq<Seq<u8>>,
    max: nat,
    name: Seq<char>,
    context: Seq<u8>,
) -> Result<nat, Fault> {
    if parts.len() == 0 {
        Err(Fault { detail: name, context })
    } else {
        number_of(parts[0], max, "expected integer"@, context)
    }
}

/// The number that the only part of a file id's tail writes.
pub open spec fn one_number(
    parts: Seq<Seq<u8>>,
    max: nat,
    name: Seq<char>,
    context: Seq<u8>,
) -> Result<nat, Fault> {
    match part_number(parts, max, name, context) {
        Err(f) => Err(f),
        Ok(a) => if parts.len() > 1 {
            Err(Fault { detail: "too many file id fields"@, context })
        } else {
            Ok(a)
        },
    }
}

/// The numbers that the two parts of a file id's tail write, the first of at most
/// `first_max` and the second of at most `second_max`.
pub open spec fn two_numbers(
    parts: Seq<Seq<u8>>,
    first_max: nat,
    first: Seq<char>,
    second_max: nat,
    second: Seq<char>,
    context: Seq<u8>,
) -> Result<(nat, nat), Fault> {
    match part_number(parts, first_max, first, context) {
        Err(f) => Err(f),
        Ok(a) => match one_number(parts.skip(1), second_max, second, context) {
            Err(f) => Err(f),
            Ok(b) => Ok((a, b)),
        },
    }
}

/// The file id that a text writes: a head and as many numbers as the id has fields, each
/// no wider than its field.
pub open spec fn file_id_of(t: Seq<u8>, context: Seq<u8>) -> Result<FileId, Fault> {
    let parts = split(t, '.' as u8);
    let numbers = parts.skip(1);
    let wide = u64::MAX as nat;
    let half = u32::MAX as nat;
    let quarter = u16::MAX as nat;
    if parts[0] == ascii("ntfsref"@) {
        match two_numbers(numbers, wide, "entry"@, quarter, "seq"@, context) {
            Err(f) => Err(f),
            Ok((a, b)) => Ok(FileId::NtfsRef { entry: a as u64, seq: b as u16 }),
        }
    } else if parts[0] == ascii("extinode"@) {
        match two_numbers(numbers, wide, "ino"@, half, "gen"@, context) {
            Err(f) => Err(f),
            Ok((a, b)) => Ok(FileId::ExtInode { ino: a as u64, gen: b as u32 }),
        }
    } else if parts[0] == ascii("apfsoid"@) {
        match two_numbers(numbers, wide, "oid"@, wide, "xid"@, context) {
            Err(f) => Err(f),
            Ok((a, b)) => Ok(FileId::ApfsOid { oid: a as u64, xid: b as u64 }),
        }
    } else if parts[0] == ascii("fatdirentry"@) {
        match two_numbers(numbers, half, "cluster"@, quarter, "index"@, context) {
            Err(f) => Err(f),
            Ok((a, b)) => Ok(FileId::FatDirEntry { cluster: a as u32, index: b as u16 }),
        }
    } else if parts[0] == ascii("isoextent"@) {
        match one_number(numbers, half, "block"@, context) {
            Err(f) => Err(f),
            Ok(a) => Ok(FileId::IsoExtent { block: a as u32 }),
        }
    } else if parts[0] == ascii("opaque"@) {
        match one_number(numbers, wide, "n"@, context) {
            Err(f) => Err(f),
            Ok(a) => Ok(FileId::Opaque(a as u64)),
        }
    } else {
        Err(Fault { detail: "unknown file id kind"@, context })
    }
}

/// The second part, or nothing where there is one part only.
pub open spec fn second_part(parts: Seq<Seq<u8>>) -> Seq<u8> {
    if parts.len() > 1 {
        parts[1]
    } else {
        Seq::empty()
    }
}

/// The stream id that a text writes: a head, and for a named stream or an extended
/// attribute its number, no wider than the field.
pub open spec fn stream_of(t: Seq<u8>, context: Seq<u8>) -> Result<StreamId, Fault> {
    let parts = split(t, '.' as u8);
    let number = number_of(second_part(parts), u16::MAX as nat, "expected u32"@, context);
    let crowded = Fault { detail: "too many stream fields"@, context };
    if parts[0] == ascii("default"@) {
        if parts.len() > 1 {
            Err(crowded)
        } else {
            Ok(StreamId::Default)
        }
    } else if parts[0] == ascii("resourcefork"@) {
        if parts.len() > 1 {
            Err(crowded)
        } else {
            Ok(StreamId::ResourceFork)
        }
    } else if parts[0] == ascii("slack"@) {
        if parts.len() > 1 {
            Err(crowded)
        } else {
            Ok(StreamId::Slack)
        }
    } else if parts[0] == ascii("named"@) {
        match number {
            Err(f) => Err(f),
            Ok(n) => if parts.len() > 2 {
                Err(crowded)
            } else {
                Ok(StreamId::Named(n as u16))
            },
        }
    } else if parts[0] == ascii("xattr"@) {
        match number {
            Err(f) => Err(f),
            Ok(n) => if parts.len() > 2 {
                Err(crowded)
            } else {
                Ok(StreamId::Xattr(n as u16))
            },
        }
    } else {
        Err(Fault { detail: "unknown stream id"@, context })
    }
}

/// Each piece, decoded; the fault of the first that does not decode.
pub open spec fn decoded_all(pieces: Seq<Seq<u8>>) -> Result<Seq<Seq<u8>>, Fault>
    decreases pieces.len(),
{
    if pieces.len() == 0 {
        Ok(Seq::empty())
    } else {
        match decoded_or_fault(pieces[0]) {
            Err(f) => Err(f),
            Ok(c) => match decoded_all(pieces.skip(1)) {
                Err(f) => Err(f),
                Ok(cs) => Ok(seq![c] + cs),
            },
        }
    }
}

/// What follows the leading slash of a node address's body. An empty body has nothing
/// after it; any other body that does not begin with a slash is a fault.
pub open spec fn after_slash(t: Seq<u8>, context: Seq<u8>) -> Result<Seq<u8>, Fault> {
    if t.len() == 0 {
        Ok(t)
    } else if t[0] == '/' as u8 {
        Ok(t.skip(1))
    } else {
        Err(Fault { detail: "unknown node address"@, context })
    }
}

/// The path that a text writes: nothing for the root, or a slash and the components.
pub open spec fn path_of(t: Seq<u8>, context: Seq<u8>) -> Result<Seq<Seq<u8>>, Fault> {
    if t.len() == 0 {
        Ok(Seq::empty())
    } else {
        match after_slash(t, context) {
            Err(f) => Err(f),
            Ok(rest) => decoded_all(split(rest, '/' as u8)),
        }
    }
}

/// The path that follows a file id.
pub open spec fn observed_path(t: Seq<u8>) -> Result<Seq<Seq<u8>>, Fault> {
    match split_once(t, '/' as u8) {
        None => Ok(Seq::empty()),
        Some((_, rest)) => decoded_all(split(rest, '/' as u8)),
    }
}

/// The node address that a text writes.
pub open spec fn addr_of(t: Seq<u8>, context: Seq<u8>) -> Result<AddrModel, Fault> {
    if t.len() > 0 && t[0] == 'p' as u8 {
        match path_of(t.skip(1), context) {
            Err(f) => Err(f),
            Ok(cs) => Ok(AddrModel::Path(cs)),
        }
    } else if t.len() > 0 && t[0] == 'f' as u8 {
        match after_slash(t.skip(1), context) {
            Err(f) => Err(f),
            Ok(rest) => match file_id_of(rest, context) {
                Err(f) => Err(f),
                Ok(id) => Ok(AddrModel::File(id)),
            },
        }
    } else if t.len() > 0 && t[0] == 'b' as u8 {
        match after_slash(t.skip(1), context) {
            Err(f) => Err(f),
            Ok(rest) => match file_id_of(split(rest, '/' as u8)[0], context) {
                Err(f) => Err(f),
                Ok(id) => match observed_path(rest) {
                    Err(f) => Err(f),
                    Ok(path) => Ok(AddrModel::Both { path, id }),
                },
            },
        }
    } else {
        Err(Fault { detail: "unknown node address"@, context })
    }
}

/// A position of `t` where a character begins or the text ends.
pub open spec fn boundary(t: Seq<u8>, k: int) -> bool {
    k == 0 || k == t.len() || (0 < k < t.len() && !(0x80 <= t[k] <= 0xbf))
}

/// The bytes that the pairs of `t` from the `i`th on write in hexadecimal.
pub open spec fn hex_bytes_from(t: Seq<u8>, i: int, context: Seq<u8>) -> Result<Seq<u8>, Fault>
    decreases 16 - i,
{
    if i >= 16 {
        Ok(Seq::empty())
    } else if !boundary(t, 2 * i) || !boundary(t, 2 * i + 2) {
        Err(Fault { detail: "bad guid"@, context })
    } else {
        match hex_pair(t[2 * i], t[2 * i + 1]) {
            None => Err(Fault { detail: "bad guid hex"@, context }),
            Some(b) => match hex_bytes_from(t, i + 1, context) {
                Err(f) => Err(f),
                Ok(rest) => Ok(seq![b] + rest),
            },
        }
    }
}

/// The GUID that 32 hexadecimal digits write.
pub open spec fn guid_of(t: Seq<u8>, context: Seq<u8>) -> Result<Seq<u8>, Fault> {
    if t.len() != 32 {
        Err(Fault { detail: "guid must be 32 hex chars"@, context })
    } else {
        hex_bytes_from(t, 0, context)
    }
}

/// The volume layer that a body writes.
pub open spec fn volume_of(body: Seq<u8>, context: Seq<u8>) -> Result<LayerModel, Fault> {
    let parts = split(body, ',' as u8);
    match volume_named(parts[0]) {
        None => Err(Fault { detail: "unknown volume scheme"@, context }),
        Some(scheme) => if parts.len() < 2 {
            Err(Fault { detail: "volume needs index"@, context })
        } else {
            match number_of(parts[1], usize::MAX as nat, "expected index"@, context) {
                Err(f) => Err(f),
                Ok(index) => if parts.len() < 3 {
                    Ok(LayerModel::Volume { scheme, index: index as usize, guid: None })
                } else {
                    match guid_of(parts[2], context) {
                        Err(f) => Err(f),
                        Ok(g) => if parts.len() > 3 {
                            Err(Fault { detail: "too many volume fields"@, context })
                        } else {
                            Ok(LayerModel::Volume { scheme, index: index as usize, guid: Some(g) })
                        },
                    }
                },
            }
        },
    }
}

/// The range layer that a body writes.
pub open spec fn range_of(body: Seq<u8>, context: Seq<u8>) -> Result<LayerModel, Fault> {
    match split_once(body, ',' as u8) {
        None => Err(Fault { detail: "range needs start,len"@, context }),
        Some((a, b)) => match number_of(a, u64::MAX as nat, "expected integer"@, context) {
            Err(f) => Err(f),
            Ok(start) => match number_of(b, u64::MAX as nat, "expected integer"@, context) {
                Err(f) => Err(f),
                Ok(len) => Ok(LayerModel::Range { start: start as u64, len: len as u64 }),
            },
        },
    }
}

/// The snapshot layer that a body writes.
pub open spec fn snapshot_of(body: Seq<u8>, context: Seq<u8>) -> Result<LayerModel, Fault> {
    match split_once(body, ',' as u8) {
        None => Err(Fault { detail: "snapshot needs kind,id"@, context }),
        Some((kind, num)) => if kind == ascii("vss"@) {
            match number_of(num, usize::MAX as nat, "expected index"@, context) {
                Err(f) => Err(f),
                Ok(i) => Ok(LayerModel::Snapshot { store: SnapshotRef::VssStore(i as usize) }),
            }
        } else if kind == ascii("apfs"@) {
            match number_of(num, u64::MAX as nat, "expected integer"@, context) {
                Err(f) => Err(f),
                Ok(x) => Ok(LayerModel::Snapshot { store: SnapshotRef::ApfsXid(x as u64) }),
            }
        } else {
            Err(Fault { detail: "unknown snapshot kind"@, context })
        },
    }
}

/// The archive layer that a body writes: nothing for a bare stream, or an index.
pub open spec fn archive_of(body: Seq<u8>, context: Seq<u8>) -> Result<LayerModel, Fault> {
    if body.len() == 0 {
        Ok(LayerModel::Archive { member: None })
    } else {
        match number_of(body, usize::MAX as nat, "expected index"@, context) {
            Err(f) => Err(f),
            Ok(i) => Ok(LayerModel::Archive { member: Some(i as usize) }),
        }
    }
}

/// The filesystem layer that a body writes.
pub open spec fn fs_of(body: Seq<u8>, context: Seq<u8>) -> Result<LayerModel, Fault> {
    match split_once(body, ',' as u8) {
        None => Err(Fault { detail: "fs needs kind,addr"@, context }),
        Some((kind, at)) => match fs_named(kind) {
            None => Err(Fault { detail: "unknown filesystem kind"@, context }),
            Some(kind) => match addr_of(at, context) {
                Err(f) => Err(f),
                Ok(at) => Ok(LayerModel::Fs { kind, at }),
            },
        },
    }
}

/// The layer that a tag and a body write.
pub open spec fn tagged_layer(
    tag: Seq<u8>,
    body: Seq<u8>,
    s: Seq<u8>,
) -> Result<LayerModel, Fault> {
    if tag == ascii("os"@) {
        match decoded_or_fault(body) {
            Err(f) => Err(f),
            Ok(path) => Ok(LayerModel::Os { path }),
        }
    } else if tag == ascii("range"@) {
        range_of(body, s)
    } else if tag == ascii("container"@) {
        match container_named(body) {
            None => Err(Fault { detail: "unknown container format"@, context: s }),
            Some(format) => Ok(LayerModel::Container { format }),
        }
    } else if tag == ascii("volume"@) {
        volume_of(body, s)
    } else if tag == ascii("crypto"@) {
        match crypto_named(body) {
            None => Err(Fault { detail: "unknown crypto scheme"@, context: s }),
            Some(scheme) => Ok(LayerModel::Crypto { scheme }),
        }
    } else if tag == ascii("encryption"@) {
        match encryption_named(body) {
            None => Err(Fault { detail: "unknown encryption scheme"@, context: s }),
            Some(scheme) => Ok(LayerModel::Encryption { scheme }),
        }
    } else if tag == ascii("archive"@) {
        archive_of(body, s)
    } else if tag == ascii("snapshot"@) {
        snapshot_of(body, s)
    } else if tag == ascii("fs"@) {
        fs_of(body, s)
    } else if tag == ascii("stream"@) {
        match stream_of(body, s) {
            Err(f) => Err(f),
            Ok(id) => Ok(LayerModel::Stream { id }),
        }
    } else {
        Err(Fault { detail: "unknown layer tag"@, context: s })
    }
}

/// The layer that a text writes.
pub open spec fn layer_of(s: Seq<u8>) -> Result<LayerModel, Fault> {
    match split_once(s, ':' as u8) {
        None => Err(Fault { detail: "layer missing tag"@, context: s }),
        Some((tag, body)) => tagged_layer(tag, body, s),
    }
}

/// The layer of each piece; the fault of the first that writes none.
pub open spec fn layers_of(pieces: Seq<Seq<u8>>) -> Result<Seq<LayerModel>, Fault>
    decreases pieces.len(),
{
    if pieces.len() == 0 {
        Ok(Seq::empty())
    } else {
        match layer_of(pieces[0]) {
            Err(f) => Err(f),
            Ok(l) => match layers_of(pieces.skip(1)) {
                Err(f) => Err(f),
                Ok(ls) => Ok(seq![l] + ls),
            },
        }
    }
}

/// The chain of layers that a text writes.
pub open spec fn chain_of(s: Seq<u8>) -> Result<Seq<LayerModel>, Fault> {
    if s.len() >= 5 && s.take(5) == ascii("fvfs:"@) {
        layers_of(split(s.skip(5), '|' as u8))
    } else {
        Err(Fault { detail: "missing fvfs: scheme"@, context: s })
    }
}

// ---------------------------------------------------------------------------
// Writing
// ---------------------------------------------------------------------------

fn push_name(out: &mut Vec<u8>, name: &'static str)
    requires
        is_name(name@),
    ensures
        final(out)@ == old(out)@ + ascii(name@),
{
    proof {
        crate::tokens::lemma_name(name@);
    }
    push_bytes(out, literal(name));
}

fn push_dotted(out: &mut Vec<u8>, head: &'static str, a: u64)
    requires
        is_name(head@),
    ensures
        final(out)@ == old(out)@ + dotted(head@, a as nat),
{
    push_name(out, head);
    out.push(0x2e);
    push_decimal(out, a);
    assert(out@ =~= old(out)@ + dotted(head@, a as nat));
}

fn push_dotted2(out: &mut Vec<u8>, head: &'static str, a: u64, b: u64)
    requires
        is_name(head@),
    ensures
        final(out)@ == old(out)@ + dotted2(head@, a as nat, b as nat),
{
    push_dotted(out, head, a);
    out.push(0x2e);
    push_decimal(out, b);
    assert(out@ =~= old(out)@ + dotted2(head@, a as nat, b as nat));
}

pub(crate) proof fn lemma_file_id_heads()
    ensures
        is_name("ntfsref"@),
        is_name("extinode"@),
        is_name("apfsoid"@),
        is_name("fatdirentry"@),
        is_name("isoextent"@),
        is_name("opaque"@),
{
    reveal_strlit("ntfsref");
    reveal_strlit("extinode");
    reveal_strlit("apfsoid");
    reveal_strlit("fatdirentry");
    reveal_strlit("isoextent");
    reveal_strlit("opaque");
}

pub(crate) proof fn lemma_stream_heads()
    ensures
        is_name("default"@),
        is_name("named"@),
        is_name("resourcefork"@),
        is_name("xattr"@),
        is_name("slack"@),
{
    reveal_strlit("default");
    reveal_strlit("named");
    reveal_strlit("resourcefork");
    reveal_strlit("xattr");
    reveal_strlit("slack");
}

pub(crate) proof fn lemma_snapshot_heads()
    ensures
        is_name("vss"@),
        is_name("apfs"@),
{
    reveal_strlit("vss");
    reveal_strlit("apfs");
}

pub(crate) proof fn lemma_tags()
    ensures
        is_name("os"@),
        is_name("range"@),
        is_name("container"@),
        is_name("volume"@),
        is_name("crypto"@),
        is_name("encryption"@),
        is_name("archive"@),
        is_name("snapshot"@),
        is_name("fs"@),
        is_name("stream"@),
{
    reveal_strlit("os");
    reveal_strlit("range");
    reveal_strlit("container");
    reveal_strlit("volume");
    reveal_strlit("crypto");
    reveal_strlit("encryption");
    reveal_strlit("archive");
    reveal_strlit("snapshot");
    reveal_strlit("fs");
    reveal_strlit("stream");
}

/// Append the text of a file id.
pub fn file_id_token(out: &mut Vec<u8>, id: FileId)
    ensures
        final(out)@ == old(out)@ + file_id_text(id),
{
    proof {
        lemma_file_id_heads();
    }
    match id {
        FileId::NtfsRef { entry, seq } => push_dotted2(out, "ntfsref", entry, seq as u64),
        FileId::ExtInode { ino, gen } => push_dotted2(out, "extinode", ino, gen as u64),
        FileId::ApfsOid { oid, xid } => push_dotted2(out, "apfsoid", oid, xid),
        FileId::FatDirEntry { cluster, index } => push_dotted2(
            out,
            "fatdirentry",
            cluster as u64,
            index as u64,
        ),
        FileId::IsoExtent { block } => push_dotted(out, "isoextent", block as u64),
        FileId::Opaque(n) => push_dotted(out, "opaque", n),
        _ => {},
    }
}

/// Append the text of a stream id.
pub fn stream_token(out: &mut Vec<u8>, id: StreamId)
    ensures
        final(out)@ == old(out)@ + stream_text(id),
{
    proof {
        lemma_stream_heads();
    }
    match id {
        StreamId::Default => push_name(out, "default"),
        StreamId::Named(n) => push_dotted(out, "named", n as u64),
        StreamId::ResourceFork => push_name(out, "resourcefork"),
        StreamId::Xattr(n) => push_dotted(out, "xattr", n as u64),
        StreamId::Slack => push_name(out, "slack"),
    }
}

fn push_path(out: &mut Vec<u8>, cs: &Vec<Vec<u8>>)
    ensures
        final(out)@ == old(out)@ + path_text(components(cs@)),
{
    let ghost model = components(cs@);
    let mut i: usize = 0;
    assert(model.take(0) =~= Seq::<Seq<u8>>::empty());
    while i < cs.len()
        invariant
            0 <= i <= cs.len(),
            model == components(cs@),
            out@ == old(out)@ + path_text(model.take(i as int)),
        decreases cs.len() - i,
    {
        let ghost before = out@;
        let ghost done = model.take(i as int);
        out.push(0x2f);
        pct_encode(out, cs[i].as_slice());
        i = i + 1;
        proof {
            let next = model.take(i as int);
            let c = model[i - 1];
            assert(encoded_components(next) =~= encoded_components(done).push(encoded(c)));
            assert(out@ =~= before + (seq!['/' as u8] + encoded(c)));
            if done.len() > 0 {
                crate::text::lemma_joined_push(encoded_components(done), '/' as u8, encoded(c));
            }
            assert(out@ =~= old(out)@ + path_text(next));
        }
    }
    assert(model.take(cs.len() as int) =~= model);
}

fn node_addr_encode(out: &mut Vec<u8>, a: &NodeAddr)
    ensures
        final(out)@ == old(out)@ + addr_text(a@),
{
    match a {
        NodeAddr::Path(cs) => {
            out.push(0x70);
            push_path(out, cs);
        },
        NodeAddr::File(id) => {
            out.push(0x66);
            out.push(0x2f);
            file_id_token(out, *id);
        },
        NodeAddr::Both { path, id } => {
            out.push(0x62);
            out.push(0x2f);
            file_id_token(out, *id);
            push_path(out, path);
        },
    }
    assert(out@ =~= old(out)@ + addr_text(a@));
}

/// Append the text of a layer.
pub fn layer_encode(out: &mut Vec<u8>, l: &Layer)
    ensures
        final(out)@ == old(out)@ + layer_text(l@),
{
    proof {
        lemma_tags();
        lemma_snapshot_heads();
    }
    match l {
        Layer::Os { path } => {
            push_name(out, "os");
            out.push(0x3a);
            pct_encode(out, path.as_slice());
        },
        Layer::Range { start, len } => {
            push_name(out, "range");
            out.push(0x3a);
            push_decimal(out, *start);
            out.push(0x2c);
            push_decimal(out, *len);
        },
        Layer::Container { format } => {
            proof {
                crate::tokens::lemma_container_name(*format);
            }
            push_name(out, "container");
            out.push(0x3a);
            push_name(out, container_token(*format));
        },
        Layer::Volume { scheme, index, guid } => {
            proof {
                crate::tokens::lemma_volume_name(*scheme);
            }
            push_name(out, "volume");
            out.push(0x3a);
            push_name(out, volume_token(*scheme));
            out.push(0x2c);
            push_decimal(out, *index as u64);
            match guid {
                Some(g) => {
                    out.push(0x2c);
                    push_hex_text(out, &g.0);
                },
                None => {},
            }
        },
        Layer::Crypto { scheme } => {
            proof {
                crate::tokens::lemma_crypto_name(*scheme);
            }
            push_name(out, "crypto");
            out.push(0x3a);
            push_name(out, crypto_token(*scheme));
        },
        Layer::Encryption { scheme } => {
            proof {
                crate::tokens::lemma_encryption_name(*scheme);
            }
            push_name(out, "encryption");
            out.push(0x3a);
            push_name(out, encryption_token(*scheme));
        },
        Layer::Archive { member } => {
            push_name(out, "archive");
            out.push(0x3a);
            match member {
                Some(i) => push_decimal(out, *i as u64),
                None => {},
            }
        },
        Layer::Snapshot { store } => {
            push_name(out, "snapshot");
            out.push(0x3a);
            match store {
                SnapshotRef::VssStore(i) => {
                    push_name(out, "vss");
                    out.push(0x2c);
                    push_decimal(out, *i as u64);
                },
                SnapshotRef::ApfsXid(x) => {
                    push_name(out, "apfs");
                    out.push(0x2c);
                    push_decimal(out, *x);
                },
            }
        },
        Layer::Fs { kind, at } => {
            proof {
                crate::tokens::lemma_fs_name(*kind);
            }
            push_name(out, "fs");
            out.push(0x3a);
            push_name(out, fs_token(*kind));
            out.push(0x2c);
            node_addr_encode(out, at);
        },
        Layer::Stream { id } => {
            push_name(out, "stream");
            out.push(0x3a);
            stream_token(out, *id);
        },
    }
    assert(out@ =~= old(out)@ + layer_text(l@));
}

// ---------------------------------------------------------------------------
// Reading
// ---------------------------------------------------------------------------

/// The outcome `r` is the value of the model, or the error that reports its fault.
pub open spec fn agrees<T: View>(r: VfsResult<T>, model: Result<T::V, Fault>) -> bool {
    match model {
        Ok(m) => r matches Ok(v) && v@ == m,
        Err(f) => r matches Err(e) && reports(e, f),
    }
}

fn integer_field(t: &[u8], max: u64, context: &[u8]) -> (r: VfsResult<u64>)
    ensures
        match number_of(t@, max as nat, "expected integer"@, context@) {
            Ok(n) => r matches Ok(v) && v == n,
            Err(f) => r matches Err(e) && reports(e, f),
        },
{
    match parse_unsigned(t, max) {
        Some(v) => Ok(v),
        None => Err(fault("expected integer", context)),
    }
}

fn stream_field(t: &[u8], context: &[u8]) -> (r: VfsResult<u16>)
    ensures
        match number_of(t@, u16::MAX as nat, "expected u32"@, context@) {
            Ok(n) => r matches Ok(v) && v == n,
            Err(f) => r matches Err(e) && reports(e, f),
        },
{
    match parse_unsigned(t, u16::MAX as u64) {
        Some(v) => Ok(v as u16),
        None => Err(fault("expected u32", context)),
    }
}

fn usize_field(t: &[u8], context: &[u8]) -> (r: VfsResult<usize>)
    ensures
        match number_of(t@, usize::MAX as nat, "expected index"@, context@) {
            Ok(n) => r matches Ok(v) && v == n,
            Err(f) => r matches Err(e) && reports(e, f),
        },
{
    match parse_unsigned(t, usize::MAX as u64) {
        Some(v) => Ok(v as usize),
        None => Err(fault("expected index", context)),
    }
}

/// The parts of what is left of a text.
spec fn parts_left(rest: Option<&[u8]>, b: u8) -> Seq<Seq<u8>> {
    match rest {
        Some(t) => split(t@, b),
        None => Seq::empty(),
    }
}

/// A measure of what is left of a text.
spec fn size_left(rest: Option<&[u8]>) -> nat {
    match rest {
        Some(t) => (t@.len() + 1) as nat,
        None => 0,
    }
}

proof fn lemma_parts_left(s: Seq<u8>, first: Seq<u8>, rest: Option<&[u8]>, b: u8)
    requires
        split(s, b) == seq![first] + match rest {
            Some(t) => split(t@, b),
            None => Seq::empty(),
        },
    ensures
        split(s, b).len() >= 1,
        split(s, b)[0] == first,
        split(s, b).skip(1) == parts_left(rest, b),
        rest is None <==> parts_left(rest, b).len() == 0,
{
    assert(split(s, b).skip(1) =~= parts_left(rest, b));
}

fn next_number<'a>(
    rest: Option<&'a [u8]>,
    max: u64,
    name: &'static str,
    context: &[u8],
) -> (r: VfsResult<(u64, Option<&'a [u8]>)>)
    ensures
        match part_number(parts_left(rest, '.' as u8), max as nat, name@, context@) {
            Ok(n) => r matches Ok((v, left)) && v == n && parts_left(left, '.' as u8)
                == parts_left(rest, '.' as u8).skip(1) && (left is None <==> parts_left(
                rest,
                '.' as u8,
            ).len() == 1),
            Err(f) => r matches Err(e) && reports(e, f),
        },
{
    match rest {
        None => Err(fault(name, context)),
        Some(t) => {
            let (first, left) = split_first(t, 0x2e);
            proof {
                lemma_parts_left(t@, first@, left, '.' as u8);
            }
            match integer_field(first, max, context) {
                Ok(v) => Ok((v, left)),
                Err(e) => Err(e),
            }
        },
    }
}

fn last_number(
    rest: Option<&[u8]>,
    max: u64,
    name: &'static str,
    context: &[u8],
) -> (r: VfsResult<u64>)
    ensures
        match one_number(parts_left(rest, '.' as u8), max as nat, name@, context@) {
            Ok(n) => r matches Ok(v) && v == n,
            Err(f) => r matches Err(e) && reports(e, f),
        },
{
    match next_number(rest, max, name, context) {
        Err(e) => Err(e),
        Ok((v, left)) => match left {
            Some(_) => Err(fault("too many file id fields", context)),
            None => Ok(v),
        },
    }
}

fn last_numbers(
    rest: Option<&[u8]>,
    first_max: u64,
    first: &'static str,
    second_max: u64,
    second: &'static str,
    context: &[u8],
) -> (r: VfsResult<(u64, u64)>)
    ensures
        match two_numbers(
            parts_left(rest, '.' as u8),
            first_max as nat,
            first@,
            second_max as nat,
            second@,
            context@,
        ) {
            Ok((a, b)) => r matches Ok((x, y)) && x == a && y == b,
            Err(f) => r matches Err(e) && reports(e, f),
        },
{
    match next_number(rest, first_max, first, context) {
        Err(e) => Err(e),
        Ok((a, left)) => match last_number(left, second_max, second, context) {
            Err(e) => Err(e),
            Ok(b) => Ok((a, b)),
        },
    }
}

fn parse_file_id(t: &[u8], context: &[u8]) -> (r: VfsResult<FileId>)
    ensures
        match file_id_of(t@, context@) {
            Ok(id) => r matches Ok(v) && v == id,
            Err(f) => r matches Err(e) && reports(e, f),
        },
{
    proof {
        lemma_file_id_heads();
    }
    let (head, rest) = split_first(t, 0x2e);
    proof {
        lemma_parts_left(t@, head@, rest, '.' as u8);
    }
    let wide: u64 = u64::MAX;
    let half: u64 = u32::MAX as u64;
    let quarter: u64 = u16::MAX as u64;
    if is_token(head, "ntfsref") {
        match last_numbers(rest, wide, "entry", quarter, "seq", context) {
            Err(e) => Err(e),
            Ok((a, b)) => Ok(FileId::NtfsRef { entry: a, seq: b as u16 }),
        }
    } else if is_token(head, "extinode") {
        match last_numbers(rest, wide, "ino", half, "gen", context) {
            Err(e) => Err(e),
            Ok((a, b)) => Ok(FileId::ExtInode { ino: a, gen: b as u32 }),
        }
    } else if is_token(head, "apfsoid") {
        match last_numbers(rest, wide, "oid", wide, "xid", context) {
            Err(e) => Err(e),
            Ok((a, b)) => Ok(FileId::ApfsOid { oid: a, xid: b }),
        }
    } else if is_token(head, "fatdirentry") {
        match last_numbers(rest, half, "cluster", quarter, "index", context) {
            Err(e) => Err(e),
            Ok((a, b)) => Ok(FileId::FatDirEntry { cluster: a as u32, index: b as u16 }),
        }
    } else if is_token(head, "isoextent") {
        match last_number(rest, half, "block", context) {
            Err(e) => Err(e),
            Ok(a) => Ok(FileId::IsoExtent { block: a as u32 }),
        }
    } else if is_token(head, "opaque") {
        match last_number(rest, wide, "n", context) {
            Err(e) => Err(e),
            Ok(a) => Ok(FileId::Opaque(a)),
        }
    } else {
        Err(fault("unknown file id kind", context))
    }
}

fn parse_stream(t: &[u8], context: &[u8]) -> (r: VfsResult<StreamId>)
    ensures
        match stream_of(t@, context@) {
            Ok(id) => r matches Ok(v) && v == id,
            Err(f) => r matches Err(e) && reports(e, f),
        },
{
    proof {
        lemma_stream_heads();
    }
    let (head, rest) = split_first(t, 0x2e);
    proof {
        lemma_parts_left(t@, head@, rest, '.' as u8);
    }
    let (number, crowded): (&[u8], bool) = match rest {
        Some(left) => {
            let (number, more) = split_first(left, 0x2e);
            proof {
                lemma_parts_left(left@, number@, more, '.' as u8);
            }
            (number, more.is_some())
        },
        None => (slice_subrange(t, 0, 0), false),
    };
    proof {
        let parts = split(t@, '.' as u8);
        if rest is Some {
            assert(parts.skip(1)[0] == parts[1]);
        }
        assert(number@ =~= second_part(parts));
        assert(crowded == (parts.len() > 2));
    }
    if is_token(head, "default") {
        match rest {
            Some(_) => Err(fault("too many stream fields", context)),
            None => Ok(StreamId::Default),
        }
    } else if is_token(head, "resourcefork") {
        match rest {
            Some(_) => Err(fault("too many stream fields", context)),
            None => Ok(StreamId::ResourceFork),
        }
    } else if is_token(head, "slack") {
        match rest {
            Some(_) => Err(fault("too many stream fields", context)),
            None => Ok(StreamId::Slack),
        }
    } else if is_token(head, "named") {
        match stream_field(number, context) {
            Err(e) => Err(e),
            Ok(n) => if crowded {
                Err(fault("too many stream fields", context))
            } else {
                Ok(StreamId::Named(n))
            },
        }
    } else if is_token(head, "xattr") {
        match stream_field(number, context) {
            Err(e) => Err(e),
            Ok(n) => if crowded {
                Err(fault("too many stream fields", context))
            } else {
                Ok(StreamId::Xattr(n))
            },
        }
    } else {
        Err(fault("unknown stream id", context))
    }
}

/// What reading gives once the first values are read.
spec fn resumed<T>(done: Seq<T>, rest: Result<Seq<T>, Fault>) -> Result<Seq<T>, Fault> {
    match rest {
        Ok(s) => Ok(done + s),
        Err(f) => Err(f),
    }
}

proof fn lemma_resumed<T>(done: Seq<T>, x: T, rest: Result<Seq<T>, Fault>)
    ensures
        resumed(
            done,
            match rest {
                Ok(s) => Ok(seq![x] + s),
                Err(f) => Err(f),
            },
        ) == resumed(done.push(x), rest),
{
    if rest is Ok {
        assert(done + (seq![x] + rest->Ok_0) =~= done.push(x) + rest->Ok_0);
    }
}

/// The components between the slashes, decoded.
fn parse_components(t: &[u8]) -> (r: VfsResult<Vec<Vec<u8>>>)
    ensures
        match decoded_all(split(t@, '/' as u8)) {
            Ok(cs) => r matches Ok(v) && components(v@) == cs,
            Err(f) => r matches Err(e) && reports(e, f),
        },
{
    let mut out: Vec<Vec<u8>> = Vec::new();
    let mut rest: Option<&[u8]> = Some(t);
    let ghost whole = decoded_all(split(t@, '/' as u8));
    proof {
        assert(components(out@) =~= Seq::<Seq<u8>>::empty());
        if whole is Ok {
            assert(Seq::<Seq<u8>>::empty() + whole->Ok_0 =~= whole->Ok_0);
        }
    }
    loop
        invariant
            whole == decoded_all(split(t@, '/' as u8)),
            whole == resumed(components(out@), decoded_all(parts_left(rest, '/' as u8))),
        decreases size_left(rest),
    {
        let here = match rest {
            Some(here) => here,
            None => {
                assert(components(out@) + Seq::<Seq<u8>>::empty() =~= components(out@));
                return Ok(out);
            },
        };
        let (first, left) = split_first(here, 0x2f);
        proof {
            lemma_parts_left(here@, first@, left, '/' as u8);
        }
        match pct_decode(first) {
            Err(e) => {
                return Err(e);
            },
            Ok(c) => {
                let ghost before = components(out@);
                out.push(c);
                proof {
                    assert(components(out@) =~= before.push(c@));
                    lemma_resumed(before, c@, decoded_all(parts_left(left, '/' as u8)));
                }
                rest = left;
            },
        }
    }
}

fn skip_slash<'a>(t: &'a [u8], context: &[u8]) -> (r: VfsResult<&'a [u8]>)
    ensures
        match after_slash(t@, context@) {
            Ok(rest) => r matches Ok(v) && v@ == rest,
            Err(f) => r matches Err(e) && reports(e, f),
        },
{
    if t.len() == 0 {
        Ok(t)
    } else if t[0] == 0x2f {
        let r = slice_subrange(t, 1, t.len());
        assert(r@ =~= t@.skip(1));
        Ok(r)
    } else {
        Err(fault("unknown node address", context))
    }
}

fn parse_node_addr(t: &[u8], context: &[u8]) -> (r: VfsResult<NodeAddr>)
    ensures
        agrees(r, addr_of(t@, context@)),
{
    if t.len() == 0 || (t[0] != 0x70 && t[0] != 0x66 && t[0] != 0x62) {
        return Err(fault("unknown node address", context));
    }
    let rest = slice_subrange(t, 1, t.len());
    assert(rest@ =~= t@.skip(1));
    let body = match skip_slash(rest, context) {
        Err(e) => {
            return Err(e);
        },
        Ok(body) => body,
    };
    if t[0] == 0x70 {
        if rest.len() == 0 {
            let none: Vec<Vec<u8>> = Vec::new();
            assert(components(none@) =~= Seq::<Seq<u8>>::empty());
            return Ok(NodeAddr::Path(none));
        }
        match parse_components(body) {
            Err(e) => Err(e),
            Ok(cs) => Ok(NodeAddr::Path(cs)),
        }
    } else if t[0] == 0x66 {
        match parse_file_id(body, context) {
            Err(e) => Err(e),
            Ok(id) => Ok(NodeAddr::File(id)),
        }
    } else {
        let (first, _) = split_first(body, 0x2f);
        match parse_file_id(first, context) {
            Err(e) => Err(e),
            Ok(id) => match split_once_at(body, 0x2f) {
                None => {
                    let none: Vec<Vec<u8>> = Vec::new();
                    assert(components(none@) =~= Seq::<Seq<u8>>::empty());
                    Ok(NodeAddr::Both { path: none, id })
                },
                Some((_, tail)) => match parse_components(tail) {
                    Err(e) => Err(e),
                    Ok(path) => Ok(NodeAddr::Both { path, id }),
                },
            },
        }
    }
}

fn is_boundary(t: &[u8], k: usize) -> (r: bool)
    ensures
        r == boundary(t@, k as int),
{
    k == 0 || k == t.len() || (k < t.len() && !(0x80 <= t[k] && t[k] <= 0xbf))
}

fn parse_guid(t: &[u8], context: &[u8]) -> (r: VfsResult<Guid>)
    ensures
        agrees(r, guid_of(t@, context@)),
{
    if t.len() != 32 {
        return Err(fault("guid must be 32 hex chars", context));
    }
    let mut out: [u8; 16] = [0u8; 16];
    let mut i: usize = 0;
    let ghost whole = hex_bytes_from(t@, 0, context@);
    proof {
        assert(out@.take(0) =~= Seq::<u8>::empty());
        if whole is Ok {
            assert(Seq::<u8>::empty() + whole->Ok_0 =~= whole->Ok_0);
        }
    }
    while i < 16
        invariant
            0 <= i <= 16,
            t.len() == 32,
            out@.len() == 16,
            whole == guid_of(t@, context@),
            whole == resumed(out@.take(i as int), hex_bytes_from(t@, i as int, context@)),
        decreases 16 - i,
    {
        if !is_boundary(t, i * 2) || !is_boundary(t, i * 2 + 2) {
            return Err(fault("bad guid", context));
        }
        match parse_hex_pair(t[i * 2], t[i * 2 + 1]) {
            None => {
                return Err(fault("bad guid hex", context));
            },
            Some(b) => {
                let ghost before = out@.take(i as int);
                out[i] = b;
                i = i + 1;
                proof {
                    assert(out@.take(i as int) =~= before.push(b));
                    lemma_resumed(before, b, hex_bytes_from(t@, i as int, context@));
                }
            },
        }
    }
    assert(out@.take(16) + Seq::<u8>::empty() =~= out@);
    Ok(Guid(out))
}

fn parse_volume_layer(body: &[u8], context: &[u8]) -> (r: VfsResult<Layer>)
    ensures
        agrees(r, volume_of(body@, context@)),
{
    let (name, rest) = split_first(body, 0x2c);
    proof {
        lemma_parts_left(body@, name@, rest, ',' as u8);
    }
    let ghost parts = split(body@, ',' as u8);
    match parse_volume(name) {
        None => Err(fault("unknown volume scheme", context)),
        Some(scheme) => match rest {
            None => Err(fault("volume needs index", context)),
            Some(left) => {
                let (number, rest2) = split_first(left, 0x2c);
                proof {
                    lemma_parts_left(left@, number@, rest2, ',' as u8);
                    assert(parts.skip(1)[0] == parts[1]);
                    assert(parts.skip(1).skip(1) =~= parts.skip(2));
                }
                match usize_field(number, context) {
                    Err(e) => Err(e),
                    Ok(index) => match rest2 {
                        None => Ok(Layer::Volume { scheme, index, guid: None }),
                        Some(left2) => {
                            let (digits, rest3) = split_first(left2, 0x2c);
                            proof {
                                lemma_parts_left(left2@, digits@, rest3, ',' as u8);
                                assert(parts.skip(2)[0] == parts[2]);
                            }
                            match parse_guid(digits, context) {
                                Err(e) => Err(e),
                                Ok(g) => match rest3 {
                                    Some(_) => Err(fault("too many volume fields", context)),
                                    None => Ok(Layer::Volume { scheme, index, guid: Some(g) }),
                                },
                            }
                        },
                    },
                }
            },
        },
    }
}

fn parse_range_layer(body: &[u8], context: &[u8]) -> (r: VfsResult<Layer>)
    ensures
        agrees(r, range_of(body@, context@)),
{
    match split_once_at(body, 0x2c) {
        None => Err(fault("range needs start,len", context)),
        Some((a, b)) => match integer_field(a, u64::MAX, context) {
            Err(e) => Err(e),
            Ok(start) => match integer_field(b, u64::MAX, context) {
                Err(e) => Err(e),
                Ok(len) => Ok(Layer::Range { start, len }),
            },
        },
    }
}

fn parse_snapshot_layer(body: &[u8], context: &[u8]) -> (r: VfsResult<Layer>)
    ensures
        agrees(r, snapshot_of(body@, context@)),
{
    proof {
        lemma_snapshot_heads();
    }
    match split_once_at(body, 0x2c) {
        None => Err(fault("snapshot needs kind,id", context)),
        Some((kind, num)) => if is_token(kind, "vss") {
            match usize_field(num, context) {
                Err(e) => Err(e),
                Ok(i) => Ok(Layer::Snapshot { store: SnapshotRef::VssStore(i) }),
            }
        } else if is_token(kind, "apfs") {
            match integer_field(num, u64::MAX, context) {
                Err(e) => Err(e),
                Ok(x) => Ok(Layer::Snapshot { store: SnapshotRef::ApfsXid(x) }),
            }
        } else {
            Err(fault("unknown snapshot kind", context))
        },
    }
}

fn parse_fs_layer(body: &[u8], context: &[u8]) -> (r: VfsResult<Layer>)
    ensures
        agrees(r, fs_of(body@, context@)),
{
    match split_once_at(body, 0x2c) {
        None => Err(fault("fs needs kind,addr", context)),
        Some((kind, at)) => match parse_fs(kind) {
            None => Err(fault("unknown filesystem kind", context)),
            Some(kind) => match parse_node_addr(at, context) {
                Err(e) => Err(e),
                Ok(at) => Ok(Layer::Fs { kind, at }),
            },
        },
    }
}

/// The layer that the text writes.
pub fn layer_parse(s: &[u8]) -> (r: VfsResult<Layer>)
    ensures
        agrees(r, layer_of(s@)),
{
    proof {
        lemma_tags();
    }
    match split_once_at(s, 0x3a) {
        None => Err(fault("layer missing tag", s)),
        Some((tag, body)) => if is_token(tag, "os") {
            match pct_decode(body) {
                Err(e) => Err(e),
                Ok(path) => Ok(Layer::Os { path }),
            }
        } else if is_token(tag, "range") {
            parse_range_layer(body, s)
        } else if is_token(tag, "container") {
            match parse_container(body) {
                None => Err(fault("unknown container format", s)),
                Some(format) => Ok(Layer::Container { format }),
            }
        } else if is_token(tag, "volume") {
            parse_volume_layer(body, s)
        } else if is_token(tag, "crypto") {
            match parse_crypto(body) {
                None => Err(fault("unknown crypto scheme", s)),
                Some(scheme) => Ok(Layer::Crypto { scheme }),
            }
        } else if is_token(tag, "encryption") {
            match parse_encryption(body) {
                None => Err(fault("unknown encryption scheme", s)),
                Some(scheme) => Ok(Layer::Encryption { scheme }),
            }
        } else if is_token(tag, "archive") {
            if body.len() == 0 {
                Ok(Layer::Archive { member: None })
            } else {
                match usize_field(body, s) {
                    Err(e) => Err(e),
                    Ok(i) => Ok(Layer::Archive { member: Some(i) }),
                }
            }
        } else if is_token(tag, "snapshot") {
            parse_snapshot_layer(body, s)
        } else if is_token(tag, "fs") {
            parse_fs_layer(body, s)
        } else if is_token(tag, "stream") {
            match parse_stream(body, s) {
                Err(e) => Err(e),
                Ok(id) => Ok(Layer::Stream { id }),
            }
        } else {
            Err(fault("unknown layer tag", s))
        },
    }
}

impl PathSpec {
    /// The lossless canonical text, which [`PathSpec::from_uri`] reads back.
    pub fn to_uri(&self) -> (r: String)
        ensures
            encode_utf8(r@) == uri_text(self@),
            r@ == crate::text::chars(uri_text(self@)),
    {
        let layers = self.layers();
        let ghost model = self@;
        let mut out: Vec<u8> = Vec::new();
        proof {
            reveal_strlit("fvfs:");
        }
        push_bytes(&mut out, literal("fvfs:"));
        let mut i: usize = 0;
        assert(layer_texts(model.take(0)) =~= Seq::<Seq<u8>>::empty());
        assert(out@ =~= ascii("fvfs:"@) + joined(layer_texts(model.take(0)), '|' as u8));
        while i < layers.len()
            invariant
                0 <= i <= layers.len(),
                layers@.len() == model.len(),
                forall|k: int| 0 <= k < layers@.len() ==> (#[trigger] layers@[k])@ == model[k],
                out@ == ascii("fvfs:"@) + joined(layer_texts(model.take(i as int)), '|' as u8),
            decreases layers.len() - i,
        {
            let ghost before = out@;
            let ghost done = layer_texts(model.take(i as int));
            if i > 0 {
                out.push(0x7c);
            }
            layer_encode(&mut out, layers[i]);
            i = i + 1;
            proof {
                let t = layer_text(model[i - 1]);
                assert(layer_texts(model.take(i as int)) =~= done.push(t));
                if done.len() > 0 {
                    crate::text::lemma_joined_push(done, '|' as u8, t);
                }
                assert(out@ =~= ascii("fvfs:"@) + joined(
                    layer_texts(model.take(i as int)),
                    '|' as u8,
                ));
            }
        }
        assert(model.take(layers.len() as int) =~= model);
        proof {
            crate::uri_laws::the_text_is_ascii(model);
        }
        ascii_string(out)
    }

    /// Read a locator from a text that writes it; malformed text is an error that carries
    /// the offending piece.
    pub fn from_uri(s: &str) -> (r: VfsResult<PathSpec>)
        ensures
            agrees(r, chain_of(encode_utf8(s@))),
            match r {
                Ok(spec) => writes_chain(encode_utf8(s@), spec@),
                Err(_) => forall|ls: Seq<LayerModel>| !#[trigger] writes_chain(encode_utf8(s@), ls),
            },
    {
        let ghost read = chain_of(encode_utf8(s@));
        proof {
            reveal_strlit("fvfs:");
            assert forall|ls: Seq<LayerModel>| #[trigger]
                writes_chain(encode_utf8(s@), ls) <==> read == Ok::<Seq<LayerModel>, Fault>(ls) by {
                crate::grammar::text_is_read_exactly_as_written(encode_utf8(s@), ls);
            }
        }
        let text = s.as_bytes();
        if text.len() < 5 {
            return Err(fault("missing fvfs: scheme", text));
        }
        let scheme = slice_subrange(text, 0, 5);
        assert(scheme@ =~= text@.take(5));
        if !same_bytes(scheme, literal("fvfs:")) {
            return Err(fault("missing fvfs: scheme", text));
        }
        let body = slice_subrange(text, 5, text.len());
        assert(body@ =~= text@.skip(5));
        let ghost whole = layers_of(split(body@, '|' as u8));
        let (first, left) = split_first(body, 0x7c);
        proof {
            lemma_parts_left(body@, first@, left, '|' as u8);
        }
        let mut spec = match layer_parse(first) {
            Err(e) => {
                return Err(e);
            },
            Ok(l) => PathSpec::root(l),
        };
        let mut rest: Option<&[u8]> = left;
        proof {
            let tail = layers_of(parts_left(rest, '|' as u8));
            assert(whole == resumed(spec@, tail));
        }
        loop
            invariant
                read == chain_of(encode_utf8(s@)),
                whole == read,
                forall|ls: Seq<LayerModel>| #[trigger]
                    writes_chain(encode_utf8(s@), ls) <==> read == Ok::<Seq<LayerModel>, Fault>(ls),
                whole == resumed(spec@, layers_of(parts_left(rest, '|' as u8))),
            decreases size_left(rest),
        {
            let here = match rest {
                Some(here) => here,
                None => {
                    assert(spec@ + Seq::<LayerModel>::empty() =~= spec@);
                    return Ok(spec);
                },
            };
            let (piece, left) = split_first(here, 0x7c);
            proof {
                lemma_parts_left(here@, piece@, left, '|' as u8);
            }
            match layer_parse(piece) {
                Err(e) => {
                    return Err(e);
                },
                Ok(l) => {
                    let ghost before = spec@;
                    spec = spec.push(l);
                    proof {
                        lemma_resumed(before, l@, layers_of(parts_left(left, '|' as u8)));
                    }
                    rest = left;
                },
            }
        }
    }
}

} // verus!

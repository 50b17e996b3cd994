//! The grammar of the text of a locator: which texts write which locator, said without
//! a parser. A locator has one canonical text. A reader also takes reserved bytes of a
//! value that stand unescaped where they delimit nothing, escapes that were not needed,
//! hexadecimal digits of either case, and numbers with a plus sign or leading zeros.

use forensicnomicon_core::FileId;
use vstd::prelude::*;

use crate::fs::StreamId;
use crate::pathspec::{AddrModel, LayerModel, SnapshotRef};
use crate::percent::{decoded, Fault};
use crate::text::{after_plus, all_digits, ascii, digits_value, hex_pair, split, split_once};
use crate::tokens::{
    container_name, crypto_name, encryption_name, fs_name, lemma_container_name, lemma_crypto_name,
    lemma_encryption_name, lemma_fs_name, lemma_volume_name, volume_name,
};
use crate::uri::{
    addr_of, boundary, chain_of, decoded_all, file_id_of, guid_of, hex_bytes_from, layer_of,
    layers_of, path_of, stream_of, tag, tagged_layer, volume_of,
};
use crate::uri_laws::{lemma_file_id_heads_differ, lemma_stream_heads_differ, lemma_tags_differ};

verus! {

broadcast use vstd::seq::group_seq_axioms;

// ---------------------------------------------------------------------------
// Which texts write which value
// ---------------------------------------------------------------------------

/// `t` writes the number `n`: digits, at least one, of that value, after an optional plus
/// sign.
pub open spec fn writes_number(t: Seq<u8>, n: nat) -> bool {
    let d = after_plus(t);
    d.len() > 0 && all_digits(d) && digits_value(d) == n
}

/// The parts are the head and one number.
pub open spec fn one_field(parts: Seq<Seq<u8>>, head: Seq<char>, a: nat) -> bool {
    parts.len() == 2 && parts[0] == ascii(head) && writes_number(parts[1], a)
}

/// The parts are the head and two numbers.
pub open spec fn two_fields(parts: Seq<Seq<u8>>, head: Seq<char>, a: nat, b: nat) -> bool {
    parts.len() == 3 && parts[0] == ascii(head) && writes_number(parts[1], a) && writes_number(
        parts[2],
        b,
    )
}

/// `t` writes the file id: its head and the numbers of its fields, with dots between.
pub open spec fn writes_file_id(t: Seq<u8>, id: FileId) -> bool {
    let parts = split(t, '.' as u8);
    match id {
        FileId::NtfsRef { entry, seq } => two_fields(parts, "ntfsref"@, entry as nat, seq as nat),
        FileId::ExtInode { ino, gen } => two_fields(parts, "extinode"@, ino as nat, gen as nat),
        FileId::ApfsOid { oid, xid } => two_fields(parts, "apfsoid"@, oid as nat, xid as nat),
        FileId::FatDirEntry { cluster, index } => two_fields(
            parts,
            "fatdirentry"@,
            cluster as nat,
            index as nat,
        ),
        FileId::IsoExtent { block } => one_field(parts, "isoextent"@, block as nat),
        FileId::Opaque(n) => one_field(parts, "opaque"@, n as nat),
        _ => false,
    }
}

/// `t` writes the stream id.
pub open spec fn writes_stream(t: Seq<u8>, id: StreamId) -> bool {
    let parts = split(t, '.' as u8);
    match id {
        StreamId::Default => parts == seq![ascii("default"@)],
        StreamId::ResourceFork => parts == seq![ascii("resourcefork"@)],
        StreamId::Slack => parts == seq![ascii("slack"@)],
        StreamId::Named(n) => one_field(parts, "named"@, n as nat),
        StreamId::Xattr(n) => one_field(parts, "xattr"@, n as nat),
    }
}

/// The pieces decode to the components, one each.
pub open spec fn writes_components(pieces: Seq<Seq<u8>>, cs: Seq<Seq<u8>>) -> bool {
    &&& pieces.len() == cs.len()
    &&& forall|i: int|
        0 <= i < cs.len() ==> decoded(#[trigger] pieces[i]) == Ok::<Seq<u8>, Seq<char>>(cs[i])
}

/// `t` writes the path: nothing for the root, or a slash and the components with slashes
/// between.
pub open spec fn writes_path(t: Seq<u8>, cs: Seq<Seq<u8>>) -> bool {
    if cs.len() == 0 {
        t.len() == 0
    } else {
        t.len() > 0 && t[0] == '/' as u8 && writes_components(split(t.skip(1), '/' as u8), cs)
    }
}

/// `t` writes the node address: `p` and a path, `f/` and a file id, or `b/`, a file id and
/// a path.
pub open spec fn writes_addr(t: Seq<u8>, a: AddrModel) -> bool {
    match a {
        AddrModel::Path(cs) => t.len() > 0 && t[0] == 'p' as u8 && writes_path(t.skip(1), cs),
        AddrModel::File(id) => t.len() > 1 && t[0] == 'f' as u8 && t[1] == '/' as u8
            && writes_file_id(t.skip(2), id),
        AddrModel::Both { path, id } => {
            let first = split(t.skip(2), '/' as u8)[0];
            t.len() > 1 && t[0] == 'b' as u8 && t[1] == '/' as u8 && writes_file_id(first, id)
                && writes_path(t.skip(2).skip(first.len() as int), path)
        },
    }
}

/// `t` writes the bytes of a GUID: two hexadecimal digits each.
pub open spec fn writes_guid(t: Seq<u8>, g: Seq<u8>) -> bool {
    &&& t.len() == 32
    &&& g.len() == 16
    &&& forall|i: int|
        0 <= i < 16 ==> hex_pair(t[2 * i], t[2 * i + 1]) == Some(#[trigger] g[i])
}

/// `body` is what may follow the tag of the layer.
pub open spec fn writes_body(body: Seq<u8>, l: LayerModel) -> bool {
    match l {
        LayerModel::Os { path } => decoded(body) == Ok::<Seq<u8>, Seq<char>>(path),
        LayerModel::Range { start, len } => split_once(body, ',' as u8) matches Some((a, b))
            && writes_number(a, start as nat) && writes_number(b, len as nat),
        LayerModel::Container { format } => body == ascii(container_name(format)),
        LayerModel::Volume { scheme, index, guid } => {
            let parts = split(body, ',' as u8);
            &&& parts.len() == if guid is Some {
                3int
            } else {
                2int
            }
            &&& parts[0] == ascii(volume_name(scheme))
            &&& writes_number(parts[1], index as nat)
            &&& guid matches Some(g) ==> writes_guid(parts[2], g)
        },
        LayerModel::Crypto { scheme } => body == ascii(crypto_name(scheme)),
        LayerModel::Encryption { scheme } => body == ascii(encryption_name(scheme)),
        LayerModel::Archive { member } => match member {
            None => body.len() == 0,
            Some(i) => writes_number(body, i as nat),
        },
        LayerModel::Snapshot { store } => split_once(body, ',' as u8) matches Some((kind, n))
            && match store {
            SnapshotRef::VssStore(i) => kind == ascii("vss"@) && writes_number(n, i as nat),
            SnapshotRef::ApfsXid(x) => kind == ascii("apfs"@) && writes_number(n, x as nat),
        },
        LayerModel::Fs { kind, at } => split_once(body, ',' as u8) matches Some((name, t))
            && name == ascii(fs_name(kind)) && writes_addr(t, at),
        LayerModel::Stream { id } => writes_stream(body, id),
    }
}

/// `s` writes the layer: its tag, a colon and its body.
pub open spec fn writes_layer(s: Seq<u8>, l: LayerModel) -> bool {
    split_once(s, ':' as u8) matches Some((t, body)) && t == ascii(tag(l)) && writes_body(body, l)
}

/// The pieces write the layers, one each.
pub open spec fn writes_layers(pieces: Seq<Seq<u8>>, ls: Seq<LayerModel>) -> bool {
    &&& pieces.len() == ls.len()
    &&& forall|i: int| 0 <= i < ls.len() ==> writes_layer(#[trigger] pieces[i], ls[i])
}

/// `s` writes the chain of layers: the scheme, and the layers with bars between.
pub open spec fn writes_chain(s: Seq<u8>, ls: Seq<LayerModel>) -> bool {
    &&& s.len() >= 5
    &&& s.take(5) == ascii("fvfs:"@)
    &&& writes_layers(split(s.skip(5), '|' as u8), ls)
}

// ---------------------------------------------------------------------------
// Reading gives what is written
// ---------------------------------------------------------------------------

proof fn lemma_file_id(t: Seq<u8>, context: Seq<u8>, id: FileId)
    ensures
        file_id_of(t, context) == Ok::<FileId, Fault>(id) <==> writes_file_id(t, id),
{
    lemma_file_id_heads_differ();
    let parts = split(t, '.' as u8);
    let numbers = parts.skip(1);
    assert(parts.len() > 1 ==> numbers[0] == parts[1]);
    assert(parts.len() > 2 ==> numbers.skip(1)[0] == parts[2]);
}

proof fn lemma_stream(t: Seq<u8>, context: Seq<u8>, id: StreamId)
    ensures
        stream_of(t, context) == Ok::<StreamId, Fault>(id) <==> writes_stream(t, id),
{
    lemma_stream_heads_differ();
    let parts = split(t, '.' as u8);
    if parts.len() == 1 {
        assert(parts =~= seq![parts[0]]);
    }
}

proof fn lemma_components(pieces: Seq<Seq<u8>>, cs: Seq<Seq<u8>>)
    ensures
        decoded_all(pieces) == Ok::<Seq<Seq<u8>>, Fault>(cs) <==> writes_components(pieces, cs),
    decreases pieces.len(),
{
    if pieces.len() > 0 {
        let rest = pieces.skip(1);
        if decoded_all(pieces) == Ok::<Seq<Seq<u8>>, Fault>(cs) {
            lemma_components(rest, cs.skip(1));
            assert(cs.skip(1) =~= decoded_all(rest)->Ok_0);
            assert forall|i: int| 0 <= i < cs.len() implies decoded(#[trigger] pieces[i]) == Ok::<
                Seq<u8>,
                Seq<char>,
            >(cs[i]) by {
                if i > 0 {
                    assert(decoded(rest[i - 1]) == Ok::<Seq<u8>, Seq<char>>(cs.skip(1)[i - 1]));
                }
            }
        }
        if writes_components(pieces, cs) {
            assert(decoded(pieces[0]) == Ok::<Seq<u8>, Seq<char>>(cs[0]));
            assert forall|i: int| 0 <= i < cs.skip(1).len() implies decoded(#[trigger] rest[i])
                == Ok::<Seq<u8>, Seq<char>>(cs.skip(1)[i]) by {
                assert(rest[i] == pieces[i + 1]);
            }
            lemma_components(rest, cs.skip(1));
            assert(seq![cs[0]] + cs.skip(1) =~= cs);
        }
    } else {
        assert(cs.len() == 0 ==> cs =~= Seq::empty());
    }
}

proof fn lemma_path(t: Seq<u8>, context: Seq<u8>, cs: Seq<Seq<u8>>)
    ensures
        path_of(t, context) == Ok::<Seq<Seq<u8>>, Fault>(cs) <==> writes_path(t, cs),
{
    if t.len() == 0 {
        assert(cs.len() == 0 ==> cs =~= Seq::empty());
    } else {
        assert(split(t.skip(1), '/' as u8).len() > 0);
        lemma_components(split(t.skip(1), '/' as u8), cs);
    }
}

/// No file id is written by nothing.
proof fn lemma_no_file_id(context: Seq<u8>)
    ensures
        file_id_of(Seq::empty(), context) is Err,
{
    reveal_strlit("ntfsref");
    reveal_strlit("extinode");
    reveal_strlit("apfsoid");
    reveal_strlit("fatdirentry");
    reveal_strlit("isoextent");
    reveal_strlit("opaque");
    assert(split(Seq::<u8>::empty(), '.' as u8)[0].len() == 0);
    assert(ascii("ntfsref"@).len() > 0 && ascii("extinode"@).len() > 0 && ascii("apfsoid"@).len()
        > 0);
    assert(ascii("fatdirentry"@).len() > 0 && ascii("isoextent"@).len() > 0 && ascii(
        "opaque"@,
    ).len() > 0);
}

proof fn lemma_addr(t: Seq<u8>, context: Seq<u8>, a: AddrModel)
    ensures
        addr_of(t, context) == Ok::<AddrModel, Fault>(a) <==> writes_addr(t, a),
{
    if t.len() > 0 {
        let rest = t.skip(1);
        let body = t.skip(2);
        lemma_no_file_id(context);
        if rest.len() == 0 {
            assert(rest =~= Seq::<u8>::empty());
            assert(split(rest, '/' as u8)[0] =~= Seq::<u8>::empty());
        } else {
            assert(rest.skip(1) =~= body);
        }
        match a {
            AddrModel::Path(cs) => lemma_path(rest, context, cs),
            AddrModel::File(id) => lemma_file_id(body, context, id),
            AddrModel::Both { path, id } => {
                let first = split(body, '/' as u8)[0];
                let left = body.skip(first.len() as int);
                lemma_file_id(first, context, id);
                lemma_path(left, context, path);
                crate::text::lemma_find(body, '/' as u8);
                match split_once(body, '/' as u8) {
                    None => {
                        assert(left =~= Seq::<u8>::empty());
                    },
                    Some((_, tail)) => {
                        assert(left.skip(1) =~= tail);
                    },
                }
            },
        }
    }
}

/// The pairs of `t` from the `i`th on write the bytes.
spec fn writes_hex_from(t: Seq<u8>, i: int, g: Seq<u8>) -> bool {
    &&& g.len() == 16 - i
    &&& forall|j: int|
        0 <= j < 16 - i ==> hex_pair(t[2 * (i + j)], t[2 * (i + j) + 1]) == Some(#[trigger] g[j])
}

proof fn lemma_hex_bytes(t: Seq<u8>, i: int, context: Seq<u8>, g: Seq<u8>)
    requires
        t.len() == 32,
        0 <= i <= 16,
    ensures
        hex_bytes_from(t, i, context) == Ok::<Seq<u8>, Fault>(g) <==> writes_hex_from(t, i, g),
    decreases 16 - i,
{
    if i == 16 {
        assert(g.len() == 0 ==> g =~= Seq::empty());
    } else {
        let rest = g.skip(1);
        lemma_hex_bytes(t, i + 1, context, rest);
        if hex_bytes_from(t, i, context) == Ok::<Seq<u8>, Fault>(g) {
            assert(rest =~= hex_bytes_from(t, i + 1, context)->Ok_0);
            assert forall|j: int| 0 <= j < 16 - i implies hex_pair(
                t[2 * (i + j)],
                t[2 * (i + j) + 1],
            ) == Some(#[trigger] g[j]) by {
                if j > 0 {
                    assert(g[j] == rest[j - 1]);
                }
            }
        }
        if writes_hex_from(t, i, g) {
            assert(hex_pair(t[2 * (i + 0)], t[2 * (i + 0) + 1]) == Some(g[0]));
            if i < 15 {
                assert(hex_pair(t[2 * (i + 1)], t[2 * (i + 1) + 1]) == Some(g[1]));
            }
            assert(boundary(t, 2 * i) && boundary(t, 2 * i + 2));
            assert forall|j: int| 0 <= j < 15 - i implies hex_pair(
                t[2 * (i + 1 + j)],
                t[2 * (i + 1 + j) + 1],
            ) == Some(#[trigger] rest[j]) by {
                assert(g[j + 1] == rest[j]);
            }
            assert(seq![g[0]] + rest =~= g);
        }
    }
}

proof fn lemma_guid(t: Seq<u8>, context: Seq<u8>, g: Seq<u8>)
    ensures
        guid_of(t, context) == Ok::<Seq<u8>, Fault>(g) <==> writes_guid(t, g),
{
    if t.len() == 32 {
        lemma_hex_bytes(t, 0, context, g);
        assert(writes_hex_from(t, 0, g) <==> writes_guid(t, g));
    }
}

proof fn lemma_volume(body: Seq<u8>, context: Seq<u8>, l: LayerModel)
    requires
        l is Volume,
    ensures
        volume_of(body, context) == Ok::<LayerModel, Fault>(l) <==> writes_body(body, l),
{
    if let LayerModel::Volume { scheme, index, guid } = l {
        lemma_volume_name(scheme);
        let parts = split(body, ',' as u8);
        if let Some(g) = guid {
            if parts.len() > 2 {
                lemma_guid(parts[2], context, g);
            }
        }
    }
}

proof fn lemma_body(body: Seq<u8>, s: Seq<u8>, l: LayerModel)
    ensures
        tagged_layer(ascii(tag(l)), body, s) == Ok::<LayerModel, Fault>(l) <==> writes_body(
            body,
            l,
        ),
{
    lemma_tags_differ(ascii(tag(l)), l);
    match l {
        LayerModel::Os { .. } => {},
        LayerModel::Range { .. } => {},
        LayerModel::Container { format } => lemma_container_name(format),
        LayerModel::Volume { .. } => lemma_volume(body, s, l),
        LayerModel::Crypto { scheme } => lemma_crypto_name(scheme),
        LayerModel::Encryption { scheme } => lemma_encryption_name(scheme),
        LayerModel::Archive { .. } => {},
        LayerModel::Snapshot { .. } => {
            reveal_strlit("vss");
            reveal_strlit("apfs");
            assert(ascii("vss"@).len() != ascii("apfs"@).len());
        },
        LayerModel::Fs { kind, at } => {
            lemma_fs_name(kind);
            if let Some((_, t)) = split_once(body, ',' as u8) {
                lemma_addr(t, s, at);
            }
        },
        LayerModel::Stream { id } => lemma_stream(body, s, id),
    }
}

/// A text is read as a layer exactly when it writes that layer.
pub proof fn layer_is_read_exactly_as_written(s: Seq<u8>, l: LayerModel)
    ensures
        layer_of(s) == Ok::<LayerModel, Fault>(l) <==> writes_layer(s, l),
{
    if let Some((t, body)) = split_once(s, ':' as u8) {
        lemma_body(body, s, l);
        if layer_of(s) == Ok::<LayerModel, Fault>(l) {
            assert(t == ascii(tag(l)));
        }
    }
}

proof fn lemma_layers(pieces: Seq<Seq<u8>>, ls: Seq<LayerModel>)
    ensures
        layers_of(pieces) == Ok::<Seq<LayerModel>, Fault>(ls) <==> writes_layers(pieces, ls),
    decreases pieces.len(),
{
    if pieces.len() > 0 {
        let rest = pieces.skip(1);
        if layers_of(pieces) == Ok::<Seq<LayerModel>, Fault>(ls) {
            assert(ls.skip(1) =~= layers_of(rest)->Ok_0);
            lemma_layers(rest, ls.skip(1));
            layer_is_read_exactly_as_written(pieces[0], ls[0]);
            assert forall|i: int| 0 <= i < ls.len() implies writes_layer(
                #[trigger] pieces[i],
                ls[i],
            ) by {
                if i > 0 {
                    assert(writes_layer(rest[i - 1], ls.skip(1)[i - 1]));
                }
            }
        }
        if writes_layers(pieces, ls) {
            assert(writes_layer(pieces[0], ls[0]));
            layer_is_read_exactly_as_written(pieces[0], ls[0]);
            assert forall|i: int| 0 <= i < ls.skip(1).len() implies writes_layer(
                #[trigger] rest[i],
                ls.skip(1)[i],
            ) by {
                assert(rest[i] == pieces[i + 1]);
            }
            lemma_layers(rest, ls.skip(1));
            assert(seq![ls[0]] + ls.skip(1) =~= ls);
        }
    } else {
        assert(ls.len() == 0 ==> ls =~= Seq::empty());
    }
}

/// A text is read as a chain of layers exactly when it writes that chain, so a text that
/// writes no chain is a fault.
pub proof fn text_is_read_exactly_as_written(s: Seq<u8>, ls: Seq<LayerModel>)
    ensures
        chain_of(s) == Ok::<Seq<LayerModel>, Fault>(ls) <==> writes_chain(s, ls),
{
    if s.len() >= 5 && s.take(5) == ascii("fvfs:"@) {
        lemma_layers(split(s.skip(5), '|' as u8), ls);
    }
}

} // verus!

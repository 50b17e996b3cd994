//! The laws of the text form: what is written is ASCII, no value leaks a delimiter
//! into the structure, and reading gives back what was written.

use forensicnomicon_core::FileId;
use vstd::prelude::*;

use crate::fs::StreamId;
use crate::pathspec::{AddrModel, Layer, LayerModel, PathSpec, SnapshotRef};
use crate::percent::{encoded, unreserved, Fault};
use crate::text::{
    all_ascii, ascii, decimal, hex_lower, hex_text, is_digit, joined, lacks, split, split_once,
};
use crate::tokens::{
    container_name, crypto_name, encryption_name, fs_name, is_name, lemma_container_name,
    lemma_crypto_name, lemma_encryption_name, lemma_fs_name, lemma_name, lemma_volume_name,
    volume_name,
};
use crate::uri::{
    addr_of, addr_text, body_text, boundary, chain_of, decoded_all, dotted, dotted2,
    encoded_components, file_id_of, file_id_text, fs_of, guid_of, hex_bytes_from, layer_of,
    layer_text, layer_texts, layers_of, number_of, one_number, path_of, path_text, range_of,
    snapshot_of, stream_of, stream_text, tag, two_numbers, uri_text, volume_of,
};

verus! {

broadcast use vstd::seq::group_seq_axioms;

// ---------------------------------------------------------------------------
// The bytes of the text
// ---------------------------------------------------------------------------

/// A byte of a value: unreserved, or the percent sign.
pub open spec fn value_byte(b: u8) -> bool {
    unreserved(b) || b == '%' as u8
}

/// A byte of a layer: of a value, or one of the delimiters within a layer.
pub open spec fn layer_byte(b: u8) -> bool {
    value_byte(b) || b == ':' as u8 || b == ',' as u8 || b == '/' as u8
}

/// A string of value bytes.
pub open spec fn is_value(s: Seq<u8>) -> bool {
    forall|i: int| 0 <= i < s.len() ==> value_byte(#[trigger] s[i])
}

/// A string of layer bytes.
pub open spec fn is_layer_string(s: Seq<u8>) -> bool {
    forall|i: int| 0 <= i < s.len() ==> layer_byte(#[trigger] s[i])
}

proof fn lemma_value(s: Seq<u8>)
    requires
        is_value(s),
    ensures
        is_layer_string(s),
        lacks(s, '|' as u8),
        lacks(s, ':' as u8),
        lacks(s, ',' as u8),
        lacks(s, '/' as u8),
{
    assert forall|i: int| 0 <= i < s.len() implies value_byte(#[trigger] s[i]) by {}
}

proof fn lemma_layer_string(s: Seq<u8>)
    requires
        is_layer_string(s),
    ensures
        all_ascii(s),
        lacks(s, '|' as u8),
{
    assert forall|i: int| 0 <= i < s.len() implies layer_byte(#[trigger] s[i]) by {}
}

proof fn lemma_decimal_value(n: nat)
    ensures
        is_value(decimal(n)),
        lacks(decimal(n), '.' as u8),
        lacks(decimal(n), ',' as u8),
        lacks(decimal(n), '/' as u8),
{
    crate::text::lemma_decimal(n);
    assert forall|i: int| 0 <= i < decimal(n).len() implies is_digit(#[trigger] decimal(n)[i]) by {}
}

proof fn lemma_name_value(s: Seq<char>)
    requires
        is_name(s),
    ensures
        is_value(ascii(s)),
{
    assert forall|i: int| 0 <= i < s.len() implies value_byte(#[trigger] ascii(s)[i]) by {
        assert('a' <= s[i] <= 'z' || '0' <= s[i] <= '9');
    }
}

proof fn lemma_hex_value(s: Seq<u8>)
    ensures
        is_value(hex_text(s)),
    decreases s.len(),
{
    if s.len() > 0 {
        lemma_hex_value(s.drop_last());
        let tail = seq![hex_lower(s.last() / 16), hex_lower(s.last() % 16)];
        assert(value_byte(tail[0]) && value_byte(tail[1]));
        let head = hex_text(s.drop_last());
        assert forall|i: int| 0 <= i < hex_text(s).len() implies value_byte(
            #[trigger] hex_text(s)[i],
        ) by {
            if i < head.len() {
                assert(hex_text(s)[i] == head[i]);
            } else {
                assert(hex_text(s)[i] == tail[i - head.len()]);
            }
        }
    }
}

proof fn lemma_dotted_value(head: Seq<char>, a: nat)
    requires
        is_name(head),
    ensures
        is_value(dotted(head, a)),
{
    lemma_name_value(head);
    lemma_decimal_value(a);
}

proof fn lemma_dotted2_value(head: Seq<char>, a: nat, b: nat)
    requires
        is_name(head),
    ensures
        is_value(dotted2(head, a, b)),
{
    lemma_name_value(head);
    lemma_decimal_value(a);
    lemma_decimal_value(b);
}

proof fn lemma_file_id_value(id: FileId)
    ensures
        is_value(file_id_text(id)),
{
    crate::uri::lemma_file_id_heads();
    match id {
        FileId::NtfsRef { entry, seq } => lemma_dotted2_value(
            "ntfsref"@,
            entry as nat,
            seq as nat,
        ),
        FileId::ExtInode { ino, gen } => lemma_dotted2_value("extinode"@, ino as nat, gen as nat),
        FileId::ApfsOid { oid, xid } => lemma_dotted2_value("apfsoid"@, oid as nat, xid as nat),
        FileId::FatDirEntry { cluster, index } => lemma_dotted2_value(
            "fatdirentry"@,
            cluster as nat,
            index as nat,
        ),
        FileId::IsoExtent { block } => lemma_dotted_value("isoextent"@, block as nat),
        FileId::Opaque(n) => lemma_dotted_value("opaque"@, n as nat),
        _ => {},
    }
}

proof fn lemma_stream_value(id: StreamId)
    ensures
        is_value(stream_text(id)),
{
    crate::uri::lemma_stream_heads();
    match id {
        StreamId::Default => lemma_name_value("default"@),
        StreamId::Named(n) => lemma_dotted_value("named"@, n as nat),
        StreamId::ResourceFork => lemma_name_value("resourcefork"@),
        StreamId::Xattr(n) => lemma_dotted_value("xattr"@, n as nat),
        StreamId::Slack => lemma_name_value("slack"@),
    }
}

/// The text of a file id is ASCII.
pub(crate) proof fn lemma_file_id_ascii(id: FileId)
    ensures
        all_ascii(file_id_text(id)),
{
    lemma_file_id_value(id);
    lemma_value(file_id_text(id));
    lemma_layer_string(file_id_text(id));
}

/// The text of a stream id is ASCII.
pub(crate) proof fn lemma_stream_ascii(id: StreamId)
    ensures
        all_ascii(stream_text(id)),
{
    lemma_stream_value(id);
    lemma_value(stream_text(id));
    lemma_layer_string(stream_text(id));
}

pub(crate) proof fn lemma_stream_nonempty(id: StreamId)
    ensures
        stream_text(id).len() > 0,
{
    crate::uri::lemma_stream_heads();
}

proof fn lemma_encoded_value(s: Seq<u8>)
    ensures
        is_value(encoded(s)),
{
    crate::percent::encoding_leaks_no_delimiter(s);
}

proof fn lemma_joined_layer_string(parts: Seq<Seq<u8>>)
    requires
        forall|i: int| 0 <= i < parts.len() ==> is_value(#[trigger] parts[i]),
    ensures
        is_layer_string(joined(parts, '/' as u8)),
    decreases parts.len(),
{
    if parts.len() > 0 {
        assert(is_value(parts[0]));
        lemma_value(parts[0]);
        let rest = parts.skip(1);
        assert forall|i: int| 0 <= i < rest.len() implies is_value(#[trigger] rest[i]) by {
            assert(rest[i] == parts[i + 1]);
        }
        lemma_joined_layer_string(rest);
    }
}

proof fn lemma_path_layer_string(cs: Seq<Seq<u8>>)
    ensures
        is_layer_string(path_text(cs)),
{
    let parts = encoded_components(cs);
    assert forall|i: int| 0 <= i < parts.len() implies is_value(#[trigger] parts[i]) by {
        lemma_encoded_value(cs[i]);
    }
    lemma_joined_layer_string(parts);
}

proof fn lemma_addr_layer_string(a: AddrModel)
    ensures
        is_layer_string(addr_text(a)),
{
    match a {
        AddrModel::Path(cs) => lemma_path_layer_string(cs),
        AddrModel::File(id) => {
            lemma_file_id_value(id);
            lemma_value(file_id_text(id));
        },
        AddrModel::Both { path, id } => {
            lemma_file_id_value(id);
            lemma_value(file_id_text(id));
            lemma_path_layer_string(path);
        },
    }
}

proof fn lemma_body_layer_string(l: LayerModel)
    ensures
        is_layer_string(body_text(l)),
{
    match l {
        LayerModel::Os { path } => {
            lemma_encoded_value(path);
            lemma_value(encoded(path));
        },
        LayerModel::Range { start, len } => {
            lemma_decimal_value(start as nat);
            lemma_decimal_value(len as nat);
        },
        LayerModel::Container { format } => {
            lemma_container_name(format);
            lemma_name_value(container_name(format));
            lemma_value(body_text(l));
        },
        LayerModel::Volume { scheme, index, guid } => {
            lemma_volume_name(scheme);
            lemma_name_value(volume_name(scheme));
            lemma_decimal_value(index as nat);
            if let Some(g) = guid {
                lemma_hex_value(g);
            }
        },
        LayerModel::Crypto { scheme } => {
            lemma_crypto_name(scheme);
            lemma_name_value(crypto_name(scheme));
            lemma_value(body_text(l));
        },
        LayerModel::Encryption { scheme } => {
            lemma_encryption_name(scheme);
            lemma_name_value(encryption_name(scheme));
            lemma_value(body_text(l));
        },
        LayerModel::Archive { member } => {
            if let Some(i) = member {
                lemma_decimal_value(i as nat);
            }
            assert(is_value(body_text(l)));
            lemma_value(body_text(l));
        },
        LayerModel::Snapshot { store } => {
            crate::uri::lemma_snapshot_heads();
            lemma_name_value("vss"@);
            lemma_name_value("apfs"@);
            match store {
                SnapshotRef::VssStore(i) => lemma_decimal_value(i as nat),
                SnapshotRef::ApfsXid(x) => lemma_decimal_value(x as nat),
            }
        },
        LayerModel::Fs { kind, at } => {
            lemma_fs_name(kind);
            lemma_name_value(fs_name(kind));
            lemma_addr_layer_string(at);
        },
        LayerModel::Stream { id } => {
            lemma_stream_value(id);
            lemma_value(stream_text(id));
        },
    }
}

proof fn lemma_tag(l: LayerModel)
    ensures
        is_name(tag(l)),
{
    crate::uri::lemma_tags();
}

/// A layer's text is ASCII and never holds the delimiter between layers.
pub proof fn a_layer_holds_no_layer_delimiter(l: LayerModel)
    ensures
        all_ascii(layer_text(l)),
        lacks(layer_text(l), '|' as u8),
{
    lemma_tag(l);
    lemma_name_value(tag(l));
    lemma_body_layer_string(l);
    assert(is_layer_string(layer_text(l)));
    lemma_layer_string(layer_text(l));
}

proof fn lemma_joined_ascii(parts: Seq<Seq<u8>>, b: u8)
    requires
        b < 128,
        forall|i: int| 0 <= i < parts.len() ==> all_ascii(#[trigger] parts[i]),
    ensures
        all_ascii(joined(parts, b)),
    decreases parts.len(),
{
    if parts.len() > 0 {
        assert(all_ascii(parts[0]));
        let rest = parts.skip(1);
        assert forall|i: int| 0 <= i < rest.len() implies all_ascii(#[trigger] rest[i]) by {
            assert(rest[i] == parts[i + 1]);
        }
        lemma_joined_ascii(rest, b);
    }
}

/// The text of every locator is ASCII.
pub proof fn the_text_is_ascii(ls: Seq<LayerModel>)
    ensures
        all_ascii(uri_text(ls)),
{
    reveal_strlit("fvfs:");
    let parts = layer_texts(ls);
    assert forall|i: int| 0 <= i < parts.len() implies all_ascii(#[trigger] parts[i]) by {
        a_layer_holds_no_layer_delimiter(ls[i]);
    }
    lemma_joined_ascii(parts, '|' as u8);
    assert forall|i: int| 0 <= i < ascii("fvfs:"@).len() implies #[trigger] ascii("fvfs:"@)[i]
        < 128 by {}
}

// ---------------------------------------------------------------------------
// Reading back
// ---------------------------------------------------------------------------

proof fn lemma_number(n: nat, max: nat, detail: Seq<char>, context: Seq<u8>)
    requires
        n <= max,
    ensures
        number_of(decimal(n), max, detail, context) == Ok::<nat, Fault>(n),
{
    crate::text::lemma_unsigned_of_decimal(n, max);
}

proof fn lemma_dotted_parts(head: Seq<char>, a: nat)
    requires
        is_name(head),
    ensures
        split(dotted(head, a), '.' as u8) == seq![ascii(head), decimal(a)],
{
    lemma_name(head);
    lemma_decimal_value(a);
    crate::text::lemma_split_first(ascii(head), '.' as u8, decimal(a));
    crate::text::lemma_split_one(decimal(a), '.' as u8);
    assert(seq![ascii(head)] + seq![decimal(a)] =~= seq![ascii(head), decimal(a)]);
}

proof fn lemma_dotted2_parts(head: Seq<char>, a: nat, b: nat)
    requires
        is_name(head),
    ensures
        split(dotted2(head, a, b), '.' as u8) == seq![ascii(head), decimal(a), decimal(b)],
{
    lemma_name(head);
    lemma_decimal_value(a);
    lemma_decimal_value(b);
    let tail = decimal(a).push('.' as u8) + decimal(b);
    crate::text::lemma_split_first(ascii(head), '.' as u8, tail);
    crate::text::lemma_split_first(decimal(a), '.' as u8, decimal(b));
    crate::text::lemma_split_one(decimal(b), '.' as u8);
    assert(seq![ascii(head)] + (seq![decimal(a)] + seq![decimal(b)]) =~= seq![
        ascii(head),
        decimal(a),
        decimal(b),
    ]);
}

proof fn lemma_one_number(head: Seq<u8>, a: nat, max: nat, name: Seq<char>, context: Seq<u8>)
    requires
        a <= max,
    ensures
        one_number(seq![head, decimal(a)].skip(1), max, name, context) == Ok::<nat, Fault>(a),
{
    lemma_number(a, max, "expected integer"@, context);
}

proof fn lemma_two_numbers(
    head: Seq<u8>,
    a: nat,
    first_max: nat,
    first: Seq<char>,
    b: nat,
    second_max: nat,
    second: Seq<char>,
    context: Seq<u8>,
)
    requires
        a <= first_max,
        b <= second_max,
    ensures
        two_numbers(
            seq![head, decimal(a), decimal(b)].skip(1),
            first_max,
            first,
            second_max,
            second,
            context,
        ) == Ok::<(nat, nat), Fault>((a, b)),
{
    lemma_number(a, first_max, "expected integer"@, context);
    lemma_number(b, second_max, "expected integer"@, context);
}

/// The heads of the file ids are different texts.
pub(crate) proof fn lemma_file_id_heads_differ()
    ensures
        ascii("ntfsref"@) != ascii("extinode"@),
        ascii("ntfsref"@) != ascii("apfsoid"@),
        ascii("ntfsref"@) != ascii("fatdirentry"@),
        ascii("ntfsref"@) != ascii("isoextent"@),
        ascii("ntfsref"@) != ascii("opaque"@),
        ascii("extinode"@) != ascii("apfsoid"@),
        ascii("extinode"@) != ascii("fatdirentry"@),
        ascii("extinode"@) != ascii("isoextent"@),
        ascii("extinode"@) != ascii("opaque"@),
        ascii("apfsoid"@) != ascii("fatdirentry"@),
        ascii("apfsoid"@) != ascii("isoextent"@),
        ascii("apfsoid"@) != ascii("opaque"@),
        ascii("fatdirentry"@) != ascii("isoextent"@),
        ascii("fatdirentry"@) != ascii("opaque"@),
        ascii("isoextent"@) != ascii("opaque"@),
{
    reveal_strlit("ntfsref");
    reveal_strlit("extinode");
    reveal_strlit("apfsoid");
    reveal_strlit("fatdirentry");
    reveal_strlit("isoextent");
    reveal_strlit("opaque");
    assert(ascii("ntfsref"@)[0] == 'n' as u8);
    assert(ascii("extinode"@)[0] == 'e' as u8);
    assert(ascii("apfsoid"@)[0] == 'a' as u8);
    assert(ascii("fatdirentry"@)[0] == 'f' as u8);
    assert(ascii("isoextent"@)[0] == 'i' as u8);
    assert(ascii("opaque"@)[0] == 'o' as u8);
}

proof fn lemma_ntfs_ref_reads_back(entry: u64, seq: u16, context: Seq<u8>)
    requires
        is_name("ntfsref"@),
    ensures
        file_id_of(dotted2("ntfsref"@, entry as nat, seq as nat), context) == Ok::<FileId, Fault>(
            FileId::NtfsRef { entry, seq },
        ),
{
    lemma_file_id_heads_differ();
    lemma_dotted2_parts("ntfsref"@, entry as nat, seq as nat);
    lemma_two_numbers(
        ascii("ntfsref"@),
        entry as nat,
        u64::MAX as nat,
        "entry"@,
        seq as nat,
        u16::MAX as nat,
        "seq"@,
        context,
    );
}

proof fn lemma_ext_inode_reads_back(ino: u64, gen: u32, context: Seq<u8>)
    requires
        is_name("extinode"@),
    ensures
        file_id_of(dotted2("extinode"@, ino as nat, gen as nat), context) == Ok::<FileId, Fault>(
            FileId::ExtInode { ino, gen },
        ),
{
    lemma_file_id_heads_differ();
    lemma_dotted2_parts("extinode"@, ino as nat, gen as nat);
    lemma_two_numbers(
        ascii("extinode"@),
        ino as nat,
        u64::MAX as nat,
        "ino"@,
        gen as nat,
        u32::MAX as nat,
        "gen"@,
        context,
    );
}

proof fn lemma_apfs_oid_reads_back(oid: u64, xid: u64, context: Seq<u8>)
    requires
        is_name("apfsoid"@),
    ensures
        file_id_of(dotted2("apfsoid"@, oid as nat, xid as nat), context) == Ok::<FileId, Fault>(
            FileId::ApfsOid { oid, xid },
        ),
{
    lemma_file_id_heads_differ();
    lemma_dotted2_parts("apfsoid"@, oid as nat, xid as nat);
    lemma_two_numbers(
        ascii("apfsoid"@),
        oid as nat,
        u64::MAX as nat,
        "oid"@,
        xid as nat,
        u64::MAX as nat,
        "xid"@,
        context,
    );
}

proof fn lemma_fat_entry_reads_back(cluster: u32, index: u16, context: Seq<u8>)
    requires
        is_name("fatdirentry"@),
    ensures
        file_id_of(dotted2("fatdirentry"@, cluster as nat, index as nat), context) == Ok::<
            FileId,
            Fault,
        >(FileId::FatDirEntry { cluster, index }),
{
    lemma_file_id_heads_differ();
    lemma_dotted2_parts("fatdirentry"@, cluster as nat, index as nat);
    lemma_two_numbers(
        ascii("fatdirentry"@),
        cluster as nat,
        u32::MAX as nat,
        "cluster"@,
        index as nat,
        u16::MAX as nat,
        "index"@,
        context,
    );
}

/// The text of a file id reads back as that file id.
pub proof fn file_id_reads_back(id: FileId, context: Seq<u8>)
    ensures
        file_id_of(file_id_text(id), context) == Ok::<FileId, Fault>(id),
{
    crate::uri::lemma_file_id_heads();
    match id {
        FileId::NtfsRef { entry, seq } => lemma_ntfs_ref_reads_back(entry, seq, context),
        FileId::ExtInode { ino, gen } => lemma_ext_inode_reads_back(ino, gen, context),
        FileId::ApfsOid { oid, xid } => lemma_apfs_oid_reads_back(oid, xid, context),
        FileId::FatDirEntry { cluster, index } => lemma_fat_entry_reads_back(
            cluster,
            index,
            context,
        ),
        FileId::IsoExtent { block } => {
            lemma_file_id_heads_differ();
            lemma_dotted_parts("isoextent"@, block as nat);
            lemma_one_number(
                ascii("isoextent"@),
                block as nat,
                u32::MAX as nat,
                "block"@,
                context,
            );
        },
        FileId::Opaque(n) => {
            lemma_file_id_heads_differ();
            lemma_dotted_parts("opaque"@, n as nat);
            lemma_one_number(ascii("opaque"@), n as nat, u64::MAX as nat, "n"@, context);
        },
        _ => {},
    }
}

/// The heads of the stream ids are different texts.
pub(crate) proof fn lemma_stream_heads_differ()
    ensures
        ascii("default"@) != ascii("resourcefork"@),
        ascii("default"@) != ascii("slack"@),
        ascii("default"@) != ascii("named"@),
        ascii("default"@) != ascii("xattr"@),
        ascii("resourcefork"@) != ascii("slack"@),
        ascii("resourcefork"@) != ascii("named"@),
        ascii("resourcefork"@) != ascii("xattr"@),
        ascii("slack"@) != ascii("named"@),
        ascii("slack"@) != ascii("xattr"@),
        ascii("named"@) != ascii("xattr"@),
{
    reveal_strlit("default");
    reveal_strlit("resourcefork");
    reveal_strlit("slack");
    reveal_strlit("named");
    reveal_strlit("xattr");
    assert(ascii("default"@)[0] == 'd' as u8);
    assert(ascii("resourcefork"@)[0] == 'r' as u8);
    assert(ascii("slack"@)[0] == 's' as u8);
    assert(ascii("named"@)[0] == 'n' as u8);
    assert(ascii("xattr"@)[0] == 'x' as u8);
}

/// The text of a stream id reads back as that stream id.
pub proof fn stream_reads_back(id: StreamId, context: Seq<u8>)
    ensures
        stream_of(stream_text(id), context) == Ok::<StreamId, Fault>(id),
{
    crate::uri::lemma_stream_heads();
    lemma_stream_heads_differ();
    match id {
        StreamId::Default => {
            lemma_name("default"@);
            crate::text::lemma_split_one(ascii("default"@), '.' as u8);
        },
        StreamId::ResourceFork => {
            lemma_name("resourcefork"@);
            crate::text::lemma_split_one(ascii("resourcefork"@), '.' as u8);
        },
        StreamId::Slack => {
            lemma_name("slack"@);
            crate::text::lemma_split_one(ascii("slack"@), '.' as u8);
        },
        StreamId::Named(n) => {
            lemma_dotted_parts("named"@, n as nat);
            lemma_number(n as nat, u16::MAX as nat, "expected u32"@, context);
        },
        StreamId::Xattr(n) => {
            lemma_dotted_parts("xattr"@, n as nat);
            lemma_number(n as nat, u16::MAX as nat, "expected u32"@, context);
        },
    }
}

proof fn lemma_decoded_all(cs: Seq<Seq<u8>>)
    ensures
        decoded_all(encoded_components(cs)) == Ok::<Seq<Seq<u8>>, Fault>(cs),
    decreases cs.len(),
{
    if cs.len() > 0 {
        crate::percent::decoding_undoes_encoding(cs[0]);
        lemma_decoded_all(cs.skip(1));
        assert(encoded_components(cs).skip(1) =~= encoded_components(cs.skip(1)));
        assert(seq![cs[0]] + cs.skip(1) =~= cs);
    } else {
        assert(cs =~= Seq::<Seq<u8>>::empty());
    }
}

proof fn lemma_path_pieces(cs: Seq<Seq<u8>>)
    requires
        cs.len() > 0,
    ensures
        split(joined(encoded_components(cs), '/' as u8), '/' as u8) == encoded_components(cs),
        decoded_all(encoded_components(cs)) == Ok::<Seq<Seq<u8>>, Fault>(cs),
{
    let parts = encoded_components(cs);
    assert forall|i: int| 0 <= i < parts.len() implies lacks(#[trigger] parts[i], '/' as u8) by {
        crate::percent::encoding_leaks_no_delimiter(cs[i]);
    }
    crate::text::splitting_undoes_joining(parts, '/' as u8);
    lemma_decoded_all(cs);
}

/// The text of a path reads back as that path, whatever bytes its components hold.
pub proof fn path_reads_back(cs: Seq<Seq<u8>>, context: Seq<u8>)
    ensures
        path_of(path_text(cs), context) == Ok::<Seq<Seq<u8>>, Fault>(cs),
{
    if cs.len() > 0 {
        lemma_path_pieces(cs);
        assert(path_text(cs).skip(1) =~= joined(encoded_components(cs), '/' as u8));
    } else {
        assert(cs =~= Seq::<Seq<u8>>::empty());
    }
}

/// The text of a node address reads back as that address.
pub proof fn addr_reads_back(a: AddrModel, context: Seq<u8>)
    ensures
        addr_of(addr_text(a), context) == Ok::<AddrModel, Fault>(a),
{
    let t = addr_text(a);
    match a {
        AddrModel::Path(cs) => {
            path_reads_back(cs, context);
            assert(t.skip(1) =~= path_text(cs));
        },
        AddrModel::File(id) => {
            file_id_reads_back(id, context);
            assert(t.skip(1).skip(1) =~= file_id_text(id));
        },
        AddrModel::Both { path, id } => {
            file_id_reads_back(id, context);
            lemma_file_id_value(id);
            lemma_value(file_id_text(id));
            let rest = file_id_text(id) + path_text(path);
            assert(t.skip(1).skip(1) =~= rest);
            if path.len() == 0 {
                assert(path =~= Seq::<Seq<u8>>::empty());
                assert(rest =~= file_id_text(id));
                crate::text::lemma_split_one(rest, '/' as u8);
            } else {
                let tail = joined(encoded_components(path), '/' as u8);
                assert(rest =~= file_id_text(id).push('/' as u8) + tail);
                crate::text::lemma_split_first(file_id_text(id), '/' as u8, tail);
                lemma_path_pieces(path);
            }
        },
    }
}

proof fn lemma_hex_bytes_from(g: Seq<u8>, i: int, context: Seq<u8>)
    requires
        g.len() == 16,
        0 <= i <= 16,
    ensures
        hex_bytes_from(hex_text(g), i, context) == Ok::<Seq<u8>, Fault>(g.skip(i)),
    decreases 16 - i,
{
    let t = hex_text(g);
    crate::text::lemma_hex_text(g);
    crate::text::lemma_hex_text_ascii(g);
    if i < 16 {
        lemma_hex_bytes_from(g, i + 1, context);
        assert(t[2 * i] == hex_lower(g[i] / 16));
        crate::text::lemma_hex_pair_of_byte(g[i]);
        assert(boundary(t, 2 * i));
        assert(boundary(t, 2 * i + 2));
        assert(seq![g[i]] + g.skip(i + 1) =~= g.skip(i));
    } else {
        assert(g.skip(i) =~= Seq::<u8>::empty());
    }
}

/// The text of a GUID reads back as that GUID.
pub proof fn guid_reads_back(g: Seq<u8>, context: Seq<u8>)
    requires
        g.len() == 16,
    ensures
        guid_of(hex_text(g), context) == Ok::<Seq<u8>, Fault>(g),
{
    crate::text::lemma_hex_text(g);
    lemma_hex_bytes_from(g, 0, context);
    assert(g.skip(0) =~= g);
}

/// A layer whose GUID, if it has one, is 16 bytes long.
pub open spec fn well_formed(l: LayerModel) -> bool {
    match l {
        LayerModel::Volume { guid: Some(g), .. } => g.len() == 16,
        _ => true,
    }
}

proof fn lemma_volume_reads_back(l: LayerModel, context: Seq<u8>)
    requires
        l is Volume,
        well_formed(l),
    ensures
        volume_of(body_text(l), context) == Ok::<LayerModel, Fault>(l),
{
    if let LayerModel::Volume { scheme, index, guid } = l {
        lemma_volume_name(scheme);
        lemma_name(volume_name(scheme));
        lemma_decimal_value(index as nat);
        lemma_number(index as nat, usize::MAX as nat, "expected index"@, context);
        let name = ascii(volume_name(scheme));
        let num = decimal(index as nat);
        match guid {
            None => {
                crate::text::lemma_split_first(name, ',' as u8, num);
                crate::text::lemma_split_one(num, ',' as u8);
                assert(split(body_text(l), ',' as u8) =~= seq![name, num]);
            },
            Some(g) => {
                guid_reads_back(g, context);
                lemma_hex_value(g);
                lemma_value(hex_text(g));
                crate::text::lemma_split_first(name, ',' as u8, num.push(',' as u8) + hex_text(g));
                crate::text::lemma_split_first(num, ',' as u8, hex_text(g));
                crate::text::lemma_split_one(hex_text(g), ',' as u8);
                assert(split(body_text(l), ',' as u8) =~= seq![name, num, hex_text(g)]);
            },
        }
    }
}

proof fn lemma_range_reads_back(start: u64, len: u64, context: Seq<u8>)
    ensures
        range_of(body_text(LayerModel::Range { start, len }), context) == Ok::<LayerModel, Fault>(
            LayerModel::Range { start, len },
        ),
{
    lemma_decimal_value(start as nat);
    lemma_number(start as nat, u64::MAX as nat, "expected integer"@, context);
    lemma_number(len as nat, u64::MAX as nat, "expected integer"@, context);
    crate::text::lemma_split_first(decimal(start as nat), ',' as u8, decimal(len as nat));
}

proof fn lemma_snapshot_reads_back(store: SnapshotRef, context: Seq<u8>)
    ensures
        snapshot_of(body_text(LayerModel::Snapshot { store }), context) == Ok::<LayerModel, Fault>(
            LayerModel::Snapshot { store },
        ),
{
    crate::uri::lemma_snapshot_heads();
    lemma_name("vss"@);
    lemma_name("apfs"@);
    reveal_strlit("vss");
    reveal_strlit("apfs");
    assert(ascii("vss"@).len() != ascii("apfs"@).len());
    match store {
        SnapshotRef::VssStore(i) => {
            lemma_number(i as nat, usize::MAX as nat, "expected index"@, context);
            crate::text::lemma_split_first(ascii("vss"@), ',' as u8, decimal(i as nat));
        },
        SnapshotRef::ApfsXid(x) => {
            lemma_number(x as nat, u64::MAX as nat, "expected integer"@, context);
            crate::text::lemma_split_first(ascii("apfs"@), ',' as u8, decimal(x as nat));
        },
    }
}

proof fn lemma_fs_reads_back(l: LayerModel, context: Seq<u8>)
    requires
        l is Fs,
    ensures
        fs_of(body_text(l), context) == Ok::<LayerModel, Fault>(l),
{
    if let LayerModel::Fs { kind, at } = l {
        lemma_fs_name(kind);
        lemma_name(fs_name(kind));
        addr_reads_back(at, context);
        crate::text::lemma_split_first(ascii(fs_name(kind)), ',' as u8, addr_text(at));
    }
}

/// The tags of the layers are different texts.
pub(crate) proof fn lemma_tags_differ(t: Seq<u8>, l: LayerModel)
    requires
        t == ascii(tag(l)),
    ensures
        t == ascii("os"@) <==> l is Os,
        t == ascii("range"@) <==> l is Range,
        t == ascii("container"@) <==> l is Container,
        t == ascii("volume"@) <==> l is Volume,
        t == ascii("crypto"@) <==> l is Crypto,
        t == ascii("encryption"@) <==> l is Encryption,
        t == ascii("archive"@) <==> l is Archive,
        t == ascii("snapshot"@) <==> l is Snapshot,
        t == ascii("fs"@) <==> l is Fs,
        t == ascii("stream"@) <==> l is Stream,
{
    reveal_strlit("os");
    reveal_strlit("range");
    reveal_strlit("container");
    reveal_strlit("volume");
    reveal_strlit("crypto");
    reveal_strlit("encryption");
    reveal_strlit("archive");
    reveal_strlit("snapshot");
    reveal_strlit("fs");
    reveal_strlit("stream");
    assert(ascii("os"@)[0] == 'o' as u8);
    assert(ascii("range"@)[0] == 'r' as u8);
    assert(ascii("container"@)[0] == 'c' as u8 && ascii("container"@).len() == 9);
    assert(ascii("volume"@)[0] == 'v' as u8);
    assert(ascii("crypto"@)[0] == 'c' as u8 && ascii("crypto"@).len() == 6);
    assert(ascii("encryption"@)[0] == 'e' as u8);
    assert(ascii("archive"@)[0] == 'a' as u8);
    assert(ascii("snapshot"@)[0] == 's' as u8 && ascii("snapshot"@).len() == 8);
    assert(ascii("fs"@)[0] == 'f' as u8);
    assert(ascii("stream"@)[0] == 's' as u8 && ascii("stream"@).len() == 6);
}

/// The text of a layer reads back as that layer.
pub proof fn layer_reads_back(l: LayerModel)
    requires
        well_formed(l),
    ensures
        layer_of(layer_text(l)) == Ok::<LayerModel, Fault>(l),
{
    let s = layer_text(l);
    let t = ascii(tag(l));
    let body = body_text(l);
    lemma_tag(l);
    lemma_name(tag(l));
    crate::text::lemma_split_first(t, ':' as u8, body);
    lemma_tags_differ(t, l);
    match l {
        LayerModel::Os { path } => crate::percent::decoding_undoes_encoding(path),
        LayerModel::Range { start, len } => lemma_range_reads_back(start, len, s),
        LayerModel::Container { format } => lemma_container_name(format),
        LayerModel::Volume { .. } => lemma_volume_reads_back(l, s),
        LayerModel::Crypto { scheme } => lemma_crypto_name(scheme),
        LayerModel::Encryption { scheme } => lemma_encryption_name(scheme),
        LayerModel::Archive { member } => {
            if let Some(i) = member {
                lemma_number(i as nat, usize::MAX as nat, "expected index"@, s);
                crate::text::lemma_decimal(i as nat);
            }
        },
        LayerModel::Snapshot { store } => lemma_snapshot_reads_back(store, s),
        LayerModel::Fs { .. } => lemma_fs_reads_back(l, s),
        LayerModel::Stream { id } => stream_reads_back(id, s),
    }
}

proof fn lemma_layers_read_back(ls: Seq<LayerModel>)
    requires
        forall|i: int| 0 <= i < ls.len() ==> well_formed(#[trigger] ls[i]),
    ensures
        layers_of(layer_texts(ls)) == Ok::<Seq<LayerModel>, Fault>(ls),
    decreases ls.len(),
{
    if ls.len() > 0 {
        assert(well_formed(ls[0]));
        layer_reads_back(ls[0]);
        let rest = ls.skip(1);
        assert forall|i: int| 0 <= i < rest.len() implies well_formed(#[trigger] rest[i]) by {
            assert(rest[i] == ls[i + 1]);
        }
        lemma_layers_read_back(rest);
        assert(layer_texts(ls).skip(1) =~= layer_texts(rest));
        assert(seq![ls[0]] + rest =~= ls);
    } else {
        assert(ls =~= Seq::<LayerModel>::empty());
    }
}

/// The text of a chain of layers reads back as that chain.
pub proof fn chain_reads_back(ls: Seq<LayerModel>)
    requires
        ls.len() > 0,
        forall|i: int| 0 <= i < ls.len() ==> well_formed(#[trigger] ls[i]),
    ensures
        chain_of(uri_text(ls)) == Ok::<Seq<LayerModel>, Fault>(ls),
{
    let parts = layer_texts(ls);
    let s = uri_text(ls);
    reveal_strlit("fvfs:");
    assert(ascii("fvfs:"@).len() == 5);
    assert(s.take(5) =~= ascii("fvfs:"@));
    assert(s.skip(5) =~= joined(parts, '|' as u8));
    assert forall|i: int| 0 <= i < parts.len() implies lacks(#[trigger] parts[i], '|' as u8) by {
        a_layer_holds_no_layer_delimiter(ls[i]);
    }
    crate::text::splitting_undoes_joining(parts, '|' as u8);
    lemma_layers_read_back(ls);
}

// ---------------------------------------------------------------------------
// Locators
// ---------------------------------------------------------------------------

proof fn lemma_chain_well_formed(spec: PathSpec)
    ensures
        spec@.len() > 0,
        forall|i: int| 0 <= i < spec@.len() ==> well_formed(#[trigger] spec@[i]),
    decreases spec,
{
    if let Some(p) = spec.parent {
        lemma_chain_well_formed(*p);
    }
    assert(well_formed(spec.layer@)) by {
        if let Layer::Volume { guid: Some(g), .. } = spec.layer {
            assert(g@.len() == 16);
        }
    }
}

/// Every locator survives its text: [`PathSpec::from_uri`] of what
/// [`PathSpec::to_uri`] writes is the locator that was written, whatever bytes its
/// paths hold.
pub proof fn from_uri_undoes_to_uri(spec: PathSpec)
    ensures
        chain_of(uri_text(spec@)) == Ok::<Seq<LayerModel>, Fault>(spec@),
{
    lemma_chain_well_formed(spec);
    chain_reads_back(spec@);
}

/// Two locators with the same text are the same locator.
pub proof fn locators_do_not_collide(a: PathSpec, b: PathSpec)
    requires
        uri_text(a@) == uri_text(b@),
    ensures
        a@ == b@,
{
    from_uri_undoes_to_uri(a);
    from_uri_undoes_to_uri(b);
}

proof fn lemma_hex_bytes_length(t: Seq<u8>, i: int, context: Seq<u8>)
    requires
        0 <= i <= 16,
    ensures
        hex_bytes_from(t, i, context) matches Ok(g) ==> g.len() == 16 - i,
    decreases 16 - i,
{
    if i < 16 {
        lemma_hex_bytes_length(t, i + 1, context);
    }
}

proof fn lemma_layer_of_well_formed(s: Seq<u8>)
    ensures
        layer_of(s) matches Ok(l) ==> well_formed(l),
{
    if let Some((t, body)) = split_once(s, ':' as u8) {
        let parts = split(body, ',' as u8);
        if parts.len() >= 3 {
            lemma_hex_bytes_length(parts[2], 0, s);
        }
    }
}

proof fn lemma_layers_of_well_formed(pieces: Seq<Seq<u8>>)
    ensures
        layers_of(pieces) matches Ok(ls) ==> {
            &&& ls.len() == pieces.len()
            &&& forall|i: int| 0 <= i < ls.len() ==> well_formed(#[trigger] ls[i])
        },
    decreases pieces.len(),
{
    if pieces.len() > 0 {
        lemma_layer_of_well_formed(pieces[0]);
        lemma_layers_of_well_formed(pieces.skip(1));
    }
}

/// Text that is accepted, in whatever spelling, has a canonical text that reads the
/// same: parsing, writing and parsing again changes nothing.
pub proof fn accepted_text_has_a_canonical_text(s: Seq<u8>)
    requires
        chain_of(s) is Ok,
    ensures
        chain_of(uri_text(chain_of(s)->Ok_0)) == chain_of(s),
{
    let pieces = split(s.skip(5), '|' as u8);
    assert(pieces.len() > 0);
    lemma_layers_of_well_formed(pieces);
    chain_reads_back(chain_of(s)->Ok_0);
}

} // verus!

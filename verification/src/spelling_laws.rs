//! What the text of a locator spells, said by putting texts together: a text is read as a
//! locator exactly when it is made of the parts that spell it.

use forensicnomicon_core::FileId;
use vstd::prelude::*;
use vstd::utf8::encode_utf8;

use crate::error::VfsResult;
use crate::fs::StreamId;
use crate::grammar::{
    writes_addr, writes_body, writes_chain, writes_components, writes_file_id, writes_guid,
    writes_layer, writes_layers, writes_number, writes_path, writes_stream,
};
use crate::pathspec::{AddrModel, LayerModel, PathSpec, SnapshotRef};
use crate::percent::decoded;
use crate::text::{all_digits, ascii, hex_pair, split, split_once};
use crate::text_laws::{are_digits, value_of, without, word, worth};
use crate::tokens::{container_name, crypto_name, encryption_name, fs_name, volume_name};
use crate::uri::tag;

verus! {

broadcast use vstd::seq::group_seq_axioms;

// ---------------------------------------------------------------------------
// What a text spells
// ---------------------------------------------------------------------------

/// Digits of that value, with at most one plus sign in front.
pub open spec fn spells_number(t: Seq<u8>, n: int) -> bool {
    let d = if t.len() > 0 && t[0] == 0x2b {
        t.skip(1)
    } else {
        t
    };
    are_digits(d) && value_of(d) == n
}

/// The bytes that a text stands for: a byte other than a percent sign for itself, a percent
/// sign and two hexadecimal digits for the byte that they write. Another text stands for none.
pub open spec fn unescapes(t: Seq<u8>) -> Option<Seq<u8>>
    decreases t.len(),
{
    if t.len() == 0 {
        Some(Seq::empty())
    } else if t[0] != 0x25 {
        match unescapes(t.skip(1)) {
            Some(s) => Some(seq![t[0]] + s),
            None => None,
        }
    } else if t.len() >= 3 && worth(t[1]) >= 0 && worth(t[2]) >= 0 {
        match unescapes(t.skip(3)) {
            Some(s) => Some(seq![(16 * worth(t[1]) + worth(t[2])) as u8] + s),
            None => None,
        }
    } else {
        None
    }
}

/// The pieces, one after the other, with the delimiter between any two.
pub open spec fn joined(pieces: Seq<Seq<u8>>, b: u8) -> Seq<u8>
    decreases pieces.len(),
{
    if pieces.len() == 0 {
        Seq::empty()
    } else if pieces.len() == 1 {
        pieces[0]
    } else {
        pieces[0] + seq![b] + joined(pieces.skip(1), b)
    }
}

/// A word, a dot and a number.
pub open spec fn spells_one(t: Seq<u8>, head: Seq<char>, a: int) -> bool {
    exists|x: Seq<u8>| #[trigger] spells_number(x, a) && t == word(head) + seq![0x2eu8] + x
}

/// A word, a dot, a number, a dot and a number.
pub open spec fn spells_two(t: Seq<u8>, head: Seq<char>, a: int, b: int) -> bool {
    exists|x: Seq<u8>, y: Seq<u8>| #[trigger]
        spells_number(x, a) && #[trigger] spells_number(y, b) && t == word(head) + seq![0x2eu8] + (x
            + seq![0x2eu8] + y)
}

/// The text spells the file id.
pub open spec fn spells_file_id(t: Seq<u8>, id: FileId) -> bool {
    match id {
        FileId::NtfsRef { entry, seq } => spells_two(t, "ntfsref"@, entry as int, seq as int),
        FileId::ExtInode { ino, gen } => spells_two(t, "extinode"@, ino as int, gen as int),
        FileId::ApfsOid { oid, xid } => spells_two(t, "apfsoid"@, oid as int, xid as int),
        FileId::FatDirEntry { cluster, index } => spells_two(
            t,
            "fatdirentry"@,
            cluster as int,
            index as int,
        ),
        FileId::IsoExtent { block } => spells_one(t, "isoextent"@, block as int),
        FileId::Opaque(n) => spells_one(t, "opaque"@, n as int),
        _ => false,
    }
}

/// The text spells the stream.
pub open spec fn spells_stream(t: Seq<u8>, id: StreamId) -> bool {
    match id {
        StreamId::Default => t == word("default"@),
        StreamId::ResourceFork => t == word("resourcefork"@),
        StreamId::Slack => t == word("slack"@),
        StreamId::Named(n) => spells_one(t, "named"@, n as int),
        StreamId::Xattr(n) => spells_one(t, "xattr"@, n as int),
    }
}

/// The pieces hold no slash and stand for the components, one each.
pub open spec fn spells_components(pieces: Seq<Seq<u8>>, cs: Seq<Seq<u8>>) -> bool {
    &&& pieces.len() == cs.len()
    &&& forall|i: int|
        0 <= i < cs.len() ==> without(#[trigger] pieces[i], 0x2f) && unescapes(pieces[i]) == Some(
            cs[i],
        )
}

/// The text spells the path: a slash before each component.
pub open spec fn spells_path(t: Seq<u8>, cs: Seq<Seq<u8>>) -> bool {
    if cs.len() == 0 {
        t.len() == 0
    } else {
        exists|pieces: Seq<Seq<u8>>| #[trigger]
            spells_components(pieces, cs) && t == seq![0x2fu8] + joined(pieces, 0x2f)
    }
}

/// The text spells the address: `p` and a path, `f/` and a file id, or `b/`, a file id and
/// a path.
pub open spec fn spells_addr(t: Seq<u8>, a: AddrModel) -> bool {
    match a {
        AddrModel::Path(cs) => exists|x: Seq<u8>| #[trigger]
            spells_path(x, cs) && t == seq![0x70u8] + x,
        AddrModel::File(id) => exists|x: Seq<u8>| #[trigger]
            spells_file_id(x, id) && t == seq![0x66u8, 0x2fu8] + x,
        AddrModel::Both { path, id } => exists|x: Seq<u8>, y: Seq<u8>| #[trigger]
            spells_file_id(x, id) && #[trigger] spells_path(y, path) && t == seq![0x62u8, 0x2fu8]
                + x + y,
    }
}

/// Two hexadecimal digits, of either case, that write the byte.
pub open spec fn spells_byte(hi: u8, lo: u8, b: u8) -> bool {
    worth(hi) >= 0 && worth(lo) >= 0 && b == 16 * worth(hi) + worth(lo)
}

/// The text spells the bytes of the GUID: two hexadecimal digits each.
pub open spec fn spells_guid(t: Seq<u8>, g: Seq<u8>) -> bool {
    &&& t.len() == 32
    &&& g.len() == 16
    &&& forall|i: int|
        0 <= i < 16 ==> spells_byte(t[2 * i], t[2 * i + 1], #[trigger] g[i])
}

/// A word, a comma and a number.
pub open spec fn spells_entry(t: Seq<u8>, head: Seq<char>, a: int) -> bool {
    exists|x: Seq<u8>| #[trigger] spells_number(x, a) && t == word(head) + seq![0x2cu8] + x
}

/// The text spells what follows the tag of the layer.
pub open spec fn spells_body(t: Seq<u8>, l: LayerModel) -> bool {
    match l {
        LayerModel::Os { path } => unescapes(t) == Some(path),
        LayerModel::Range { start, len } => exists|x: Seq<u8>, y: Seq<u8>| #[trigger]
            spells_number(x, start as int) && #[trigger] spells_number(y, len as int) && t == x
                + seq![0x2cu8] + y,
        LayerModel::Container { format } => t == word(container_name(format)),
        LayerModel::Volume { scheme, index, guid: None } => spells_entry(
            t,
            volume_name(scheme),
            index as int,
        ),
        LayerModel::Volume { scheme, index, guid: Some(g) } => exists|x: Seq<u8>, y: Seq<u8>|
            #[trigger]
            spells_entry(x, volume_name(scheme), index as int) && #[trigger] spells_guid(y, g) && t
                == x + seq![0x2cu8] + y,
        LayerModel::Crypto { scheme } => t == word(crypto_name(scheme)),
        LayerModel::Encryption { scheme } => t == word(encryption_name(scheme)),
        LayerModel::Archive { member: None } => t.len() == 0,
        LayerModel::Archive { member: Some(i) } => spells_number(t, i as int),
        LayerModel::Snapshot { store: SnapshotRef::VssStore(i) } => spells_entry(
            t,
            "vss"@,
            i as int,
        ),
        LayerModel::Snapshot { store: SnapshotRef::ApfsXid(x) } => spells_entry(
            t,
            "apfs"@,
            x as int,
        ),
        LayerModel::Fs { kind, at } => exists|x: Seq<u8>| #[trigger]
            spells_addr(x, at) && t == word(fs_name(kind)) + seq![0x2cu8] + x,
        LayerModel::Stream { id } => spells_stream(t, id),
    }
}

/// The word before the colon of the layer.
pub open spec fn tag_word(l: LayerModel) -> Seq<char> {
    match l {
        LayerModel::Os { .. } => "os"@,
        LayerModel::Range { .. } => "range"@,
        LayerModel::Container { .. } => "container"@,
        LayerModel::Volume { .. } => "volume"@,
        LayerModel::Crypto { .. } => "crypto"@,
        LayerModel::Encryption { .. } => "encryption"@,
        LayerModel::Archive { .. } => "archive"@,
        LayerModel::Snapshot { .. } => "snapshot"@,
        LayerModel::Fs { .. } => "fs"@,
        LayerModel::Stream { .. } => "stream"@,
    }
}

/// The text spells the layer: its tag, a colon and what follows.
pub open spec fn spells_layer(t: Seq<u8>, l: LayerModel) -> bool {
    exists|x: Seq<u8>| #[trigger] spells_body(x, l) && t == word(tag_word(l)) + seq![0x3au8] + x
}

/// The pieces hold no bar and spell the layers, one each.
pub open spec fn spells_layers(pieces: Seq<Seq<u8>>, ls: Seq<LayerModel>) -> bool {
    &&& pieces.len() == ls.len()
    &&& forall|i: int|
        0 <= i < ls.len() ==> without(#[trigger] pieces[i], 0x7c) && spells_layer(pieces[i], ls[i])
}

/// The text spells the locator: the scheme, and at least one layer, with bars between.
pub open spec fn spells(t: Seq<u8>, ls: Seq<LayerModel>) -> bool {
    ls.len() > 0 && exists|pieces: Seq<Seq<u8>>| #[trigger]
        spells_layers(pieces, ls) && t == word("fvfs:"@) + joined(pieces, 0x7c)
}

// ---------------------------------------------------------------------------
// What is written is what is spelled
// ---------------------------------------------------------------------------

pub(crate) proof fn lemma_word(s: Seq<char>)
    ensures
        word(s) == ascii(s),
{
    assert(word(s) =~= ascii(s));
}

pub(crate) proof fn lemma_number(t: Seq<u8>, n: nat)
    ensures
        writes_number(t, n) <==> spells_number(t, n as int),
        spells_number(t, n as int) ==> without(t, 0x2c) && without(t, 0x2e) && without(t, 0x2f)
            && without(t, 0x7c),
{
    let d = crate::text::after_plus(t);
    if are_digits(d) {
        assert(all_digits(d)) by {
            assert forall|i: int| 0 <= i < d.len() implies crate::text::is_digit(
                #[trigger] d[i],
            ) by {}
        }
    }
    if d.len() > 0 && all_digits(d) {
        crate::text_laws::lemma_value(d);
        assert forall|i: int| 0 <= i < d.len() implies 0x30 <= #[trigger] d[i] <= 0x39 by {
            assert(crate::text::is_digit(d[i]));
        }
        assert forall|i: int| 0 <= i < t.len() implies 0x30 <= #[trigger] t[i] <= 0x39 || t[i]
            == 0x2b by {
            if d.len() < t.len() {
                if i > 0 {
                    assert(d[i - 1] == t[i]);
                }
            } else {
                assert(d[i] == t[i]);
            }
        }
    }
}

pub(crate) proof fn lemma_unescapes(t: Seq<u8>, s: Seq<u8>)
    ensures
        decoded(t) is Ok <==> unescapes(t) is Some,
        decoded(t) == Ok::<Seq<u8>, Seq<char>>(s) <==> unescapes(t) == Some(s),
    decreases t.len(),
{
    if t.len() > 0 {
        if t[0] != 0x25 {
            match decoded(t.skip(1)) {
                Ok(r) => lemma_unescapes(t.skip(1), r),
                Err(_) => lemma_unescapes(t.skip(1), s),
            }
        } else if t.len() >= 3 {
            if worth(t[1]) >= 0 && worth(t[2]) >= 0 {
                crate::percent::lemma_two_ascii_bytes(t[1], t[2]);
            }
            match decoded(t.skip(3)) {
                Ok(r) => lemma_unescapes(t.skip(3), r),
                Err(_) => lemma_unescapes(t.skip(3), s),
            }
        }
    }
}

pub(crate) proof fn lemma_joined_split(s: Seq<u8>, b: u8)
    ensures
        joined(split(s, b), b) == s,
        split(s, b).len() > 0,
        forall|i: int| 0 <= i < split(s, b).len() ==> without(#[trigger] split(s, b)[i], b),
    decreases s.len(),
{
    crate::text::lemma_find(s, b);
    crate::text_laws::the_pieces_make_up_the_text(s, b);
    let i = crate::text::find(s, b);
    if i < s.len() {
        let rest = s.skip(i + 1);
        lemma_joined_split(rest, b);
        assert(split(s, b).skip(1) =~= split(rest, b));
        assert(s =~= s.take(i) + seq![b] + rest);
    }
}

pub(crate) proof fn lemma_split_joined(pieces: Seq<Seq<u8>>, b: u8)
    requires
        pieces.len() > 0,
        forall|i: int| 0 <= i < pieces.len() ==> without(#[trigger] pieces[i], b),
    ensures
        split(joined(pieces, b), b) == pieces,
    decreases pieces.len(),
{
    assert(without(pieces[0], b));
    if pieces.len() == 1 {
        crate::text::lemma_split_one(pieces[0], b);
        assert(pieces =~= seq![pieces[0]]);
    } else {
        let rest = pieces.skip(1);
        assert forall|i: int| 0 <= i < rest.len() implies without(#[trigger] rest[i], b) by {
            assert(rest[i] == pieces[i + 1]);
        }
        lemma_split_joined(rest, b);
        lemma_parted(pieces[0], b, joined(rest, b));
        assert(seq![pieces[0]] + rest =~= pieces);
    }
}

/// A piece without the delimiter, the delimiter and the rest.
pub(crate) proof fn lemma_parted(x: Seq<u8>, b: u8, y: Seq<u8>)
    requires
        without(x, b),
    ensures
        split_once(x + seq![b] + y, b) == Some((x, y)),
        split(x + seq![b] + y, b) == seq![x] + split(y, b),
        without(y, b) ==> split(x + seq![b] + y, b) == seq![x, y],
{
    crate::text::lemma_split_first(x, b, y);
    assert(x.push(b) + y =~= x + seq![b] + y);
    if without(y, b) {
        crate::text::lemma_split_one(y, b);
        assert(seq![x] + seq![y] =~= seq![x, y]);
    }
}

/// A text of two pieces.
proof fn lemma_two_pieces(s: Seq<u8>, b: u8)
    requires
        split(s, b).len() == 2,
    ensures
        s == split(s, b)[0] + seq![b] + split(s, b)[1],
{
    lemma_joined_split(s, b);
    let p = split(s, b);
    assert(p.skip(1) =~= seq![p[1]]);
    assert(joined(p.skip(1), b) == p[1]);
}

/// A text of three pieces.
proof fn lemma_three_pieces(s: Seq<u8>, b: u8)
    requires
        split(s, b).len() == 3,
    ensures
        s == split(s, b)[0] + seq![b] + (split(s, b)[1] + seq![b] + split(s, b)[2]),
{
    lemma_joined_split(s, b);
    let p = split(s, b);
    let q = p.skip(1);
    assert(q =~= seq![p[1], p[2]]);
    assert(q.skip(1) =~= seq![p[2]]);
    assert(joined(q.skip(1), b) == p[2]);
    assert(joined(q, b) == p[1] + seq![b] + p[2]);
}

proof fn lemma_one(t: Seq<u8>, head: Seq<char>, a: nat)
    requires
        crate::tokens::is_name(head),
    ensures
        crate::grammar::one_field(split(t, 0x2e), head, a) <==> spells_one(t, head, a as int),
{
    crate::tokens::lemma_name(head);
    lemma_word(head);
    let p = split(t, 0x2e);
    if crate::grammar::one_field(p, head, a) {
        lemma_two_pieces(t, 0x2e);
        lemma_number(p[1], a);
        assert(spells_number(p[1], a as int));
    }
    if spells_one(t, head, a as int) {
        let x = choose|x: Seq<u8>| #[trigger]
            spells_number(x, a as int) && t == word(head) + seq![0x2eu8] + x;
        lemma_number(x, a);
        lemma_parted(word(head), 0x2e, x);
    }
}

proof fn lemma_two(t: Seq<u8>, head: Seq<char>, a: nat, b: nat)
    requires
        crate::tokens::is_name(head),
    ensures
        crate::grammar::two_fields(split(t, 0x2e), head, a, b) <==> spells_two(
            t,
            head,
            a as int,
            b as int,
        ),
{
    crate::tokens::lemma_name(head);
    lemma_word(head);
    let p = split(t, 0x2e);
    if crate::grammar::two_fields(p, head, a, b) {
        lemma_three_pieces(t, 0x2e);
        lemma_number(p[1], a);
        lemma_number(p[2], b);
        assert(spells_number(p[1], a as int) && spells_number(p[2], b as int));
    }
    if spells_two(t, head, a as int, b as int) {
        let (x, y) = choose|x: Seq<u8>, y: Seq<u8>| #[trigger]
            spells_number(x, a as int) && #[trigger] spells_number(y, b as int) && t == word(head)
                + seq![0x2eu8] + (x + seq![0x2eu8] + y);
        lemma_number(x, a);
        lemma_number(y, b);
        lemma_parted(x, 0x2e, y);
        lemma_parted(word(head), 0x2e, x + seq![0x2eu8] + y);
        assert(p =~= seq![word(head), x, y]);
    }
}

proof fn lemma_file_id(t: Seq<u8>, id: FileId)
    ensures
        writes_file_id(t, id) <==> spells_file_id(t, id),
{
    crate::uri::lemma_file_id_heads();
    match id {
        FileId::NtfsRef { entry, seq } => lemma_two(t, "ntfsref"@, entry as nat, seq as nat),
        FileId::ExtInode { ino, gen } => lemma_two(t, "extinode"@, ino as nat, gen as nat),
        FileId::ApfsOid { oid, xid } => lemma_two(t, "apfsoid"@, oid as nat, xid as nat),
        FileId::FatDirEntry { cluster, index } => lemma_two(
            t,
            "fatdirentry"@,
            cluster as nat,
            index as nat,
        ),
        FileId::IsoExtent { block } => lemma_one(t, "isoextent"@, block as nat),
        FileId::Opaque(n) => lemma_one(t, "opaque"@, n as nat),
        _ => {},
    }
}

proof fn lemma_one_slashless(t: Seq<u8>, head: Seq<char>, a: nat)
    requires
        crate::tokens::is_name(head),
        spells_one(t, head, a as int),
    ensures
        without(t, 0x2f),
{
    crate::tokens::lemma_name(head);
    lemma_word(head);
    let x = choose|x: Seq<u8>| #[trigger]
        spells_number(x, a as int) && t == word(head) + seq![0x2eu8] + x;
    lemma_number(x, a);
}

proof fn lemma_two_slashless(t: Seq<u8>, head: Seq<char>, a: nat, b: nat)
    requires
        crate::tokens::is_name(head),
        spells_two(t, head, a as int, b as int),
    ensures
        without(t, 0x2f),
{
    crate::tokens::lemma_name(head);
    lemma_word(head);
    let (x, y) = choose|x: Seq<u8>, y: Seq<u8>| #[trigger]
        spells_number(x, a as int) && #[trigger] spells_number(y, b as int) && t == word(head)
            + seq![0x2eu8] + (x + seq![0x2eu8] + y);
    lemma_number(x, a);
    lemma_number(y, b);
}

proof fn lemma_file_id_slashless(t: Seq<u8>, id: FileId)
    requires
        spells_file_id(t, id),
    ensures
        without(t, 0x2f),
{
    crate::uri::lemma_file_id_heads();
    match id {
        FileId::NtfsRef { entry, seq } => lemma_two_slashless(
            t,
            "ntfsref"@,
            entry as nat,
            seq as nat,
        ),
        FileId::ExtInode { ino, gen } => lemma_two_slashless(
            t,
            "extinode"@,
            ino as nat,
            gen as nat,
        ),
        FileId::ApfsOid { oid, xid } => lemma_two_slashless(t, "apfsoid"@, oid as nat, xid as nat),
        FileId::FatDirEntry { cluster, index } => lemma_two_slashless(
            t,
            "fatdirentry"@,
            cluster as nat,
            index as nat,
        ),
        FileId::IsoExtent { block } => lemma_one_slashless(t, "isoextent"@, block as nat),
        FileId::Opaque(n) => lemma_one_slashless(t, "opaque"@, n as nat),
        _ => {},
    }
}

proof fn lemma_stream(t: Seq<u8>, id: StreamId)
    ensures
        writes_stream(t, id) <==> spells_stream(t, id),
{
    crate::uri::lemma_stream_heads();
    match id {
        StreamId::Default => lemma_alone(t, "default"@),
        StreamId::ResourceFork => lemma_alone(t, "resourcefork"@),
        StreamId::Slack => lemma_alone(t, "slack"@),
        StreamId::Named(n) => lemma_one(t, "named"@, n as nat),
        StreamId::Xattr(n) => lemma_one(t, "xattr"@, n as nat),
    }
}

proof fn lemma_alone(t: Seq<u8>, head: Seq<char>)
    requires
        crate::tokens::is_name(head),
    ensures
        split(t, 0x2e) == seq![ascii(head)] <==> t == word(head),
{
    crate::tokens::lemma_name(head);
    lemma_word(head);
    crate::text::lemma_split_one(word(head), 0x2e);
    if split(t, 0x2e) == seq![ascii(head)] {
        crate::text_laws::the_pieces_make_up_the_text(t, 0x2e);
        assert(split(t, 0x2e).len() == 1);
        assert(split(t, 0x2e)[0] == ascii(head));
    }
}

proof fn lemma_path(t: Seq<u8>, cs: Seq<Seq<u8>>)
    ensures
        writes_path(t, cs) <==> spells_path(t, cs),
{
    if cs.len() > 0 {
        if writes_path(t, cs) {
            let pieces = split(t.skip(1), 0x2f);
            lemma_joined_split(t.skip(1), 0x2f);
            assert(spells_components(pieces, cs)) by {
                assert forall|i: int| 0 <= i < cs.len() implies without(#[trigger] pieces[i], 0x2f)
                    && unescapes(pieces[i]) == Some(cs[i]) by {
                    lemma_unescapes(pieces[i], cs[i]);
                }
            }
            assert(t =~= seq![0x2fu8] + t.skip(1));
        }
        if spells_path(t, cs) {
            let pieces = choose|pieces: Seq<Seq<u8>>| #[trigger]
                spells_components(pieces, cs) && t == seq![0x2fu8] + joined(pieces, 0x2f);
            assert forall|i: int| 0 <= i < cs.len() implies decoded(#[trigger] pieces[i]) == Ok::<
                Seq<u8>,
                Seq<char>,
            >(cs[i]) by {
                lemma_unescapes(pieces[i], cs[i]);
            }
            lemma_split_joined(pieces, 0x2f);
            assert(t.skip(1) =~= joined(pieces, 0x2f));
            assert(writes_components(pieces, cs));
        }
    }
}

proof fn lemma_addr(t: Seq<u8>, a: AddrModel)
    ensures
        writes_addr(t, a) <==> spells_addr(t, a),
{
    match a {
        AddrModel::Path(cs) => {
            if writes_addr(t, a) {
                lemma_path(t.skip(1), cs);
                assert(t =~= seq![0x70u8] + t.skip(1));
                assert(spells_path(t.skip(1), cs));
            }
            if spells_addr(t, a) {
                let x = choose|x: Seq<u8>| #[trigger] spells_path(x, cs) && t == seq![0x70u8] + x;
                lemma_path(x, cs);
                assert(t.skip(1) =~= x);
            }
        },
        AddrModel::File(id) => {
            if writes_addr(t, a) {
                lemma_file_id(t.skip(2), id);
                assert(t =~= seq![0x66u8, 0x2fu8] + t.skip(2));
                assert(spells_file_id(t.skip(2), id));
            }
            if spells_addr(t, a) {
                let x = choose|x: Seq<u8>| #[trigger]
                    spells_file_id(x, id) && t == seq![0x66u8, 0x2fu8] + x;
                lemma_file_id(x, id);
                assert(t.skip(2) =~= x);
            }
        },
        AddrModel::Both { path, id } => lemma_both(t, path, id),
    }
}

proof fn lemma_both(t: Seq<u8>, path: Seq<Seq<u8>>, id: FileId)
    ensures
        ({
            let a = AddrModel::Both { path, id };
            writes_addr(t, a) <==> spells_addr(t, a)
        }),
{
    let a = AddrModel::Both { path, id };
    if writes_addr(t, a) {
        let body = t.skip(2);
        let x = split(body, 0x2f)[0];
        crate::text::lemma_find(body, 0x2f);
        let y = body.skip(x.len() as int);
        lemma_file_id(x, id);
        lemma_path(y, path);
        assert(x =~= body.take(x.len() as int));
        assert(t =~= seq![0x62u8, 0x2fu8] + x + y);
        assert(spells_file_id(x, id) && spells_path(y, path));
    }
    if spells_addr(t, a) {
        let (x, y) = choose|x: Seq<u8>, y: Seq<u8>| #[trigger]
            spells_file_id(x, id) && #[trigger] spells_path(y, path) && t == seq![0x62u8, 0x2fu8]
                + x + y;
        lemma_file_id_slashless(x, id);
        lemma_file_id(x, id);
        lemma_path(y, path);
        let body = t.skip(2);
        assert(body =~= x + y);
        if path.len() == 0 {
            assert(body =~= x);
            crate::text::lemma_split_one(x, 0x2f);
        } else {
            assert(y[0] == 0x2f);
            assert(body =~= x + seq![0x2fu8] + y.skip(1));
            lemma_parted(x, 0x2f, y.skip(1));
        }
        assert(split(body, 0x2f)[0] == x);
        assert(body.skip(x.len() as int) =~= y);
    }
}

proof fn lemma_guid(t: Seq<u8>, g: Seq<u8>)
    ensures
        writes_guid(t, g) <==> spells_guid(t, g),
{
    if writes_guid(t, g) {
        assert forall|i: int| 0 <= i < 16 implies spells_byte(
            t[2 * i],
            t[2 * i + 1],
            #[trigger] g[i],
        ) by {
            assert(Some(g[i]) == hex_pair(t[2 * i], t[2 * i + 1]));
        }
    }
    if spells_guid(t, g) {
        assert forall|i: int| 0 <= i < 16 implies hex_pair(t[2 * i], t[2 * i + 1]) == Some(
            #[trigger] g[i],
        ) by {
            assert(spells_byte(t[2 * i], t[2 * i + 1], g[i]));
        }
    }
}

proof fn lemma_entry(t: Seq<u8>, head: Seq<char>, a: nat)
    requires
        crate::tokens::is_name(head),
    ensures
        (split_once(t, 0x2c) matches Some((x, y)) && x == ascii(head) && writes_number(y, a))
            <==> spells_entry(t, head, a as int),
        (split(t, 0x2c).len() == 2 && split(t, 0x2c)[0] == ascii(head) && writes_number(
            split(t, 0x2c)[1],
            a,
        )) <==> spells_entry(t, head, a as int),
{
    crate::tokens::lemma_name(head);
    lemma_word(head);
    if let Some((x, y)) = split_once(t, 0x2c) {
        crate::text_laws::a_text_is_parted_at_the_first_delimiter(t, 0x2c);
        lemma_number(y, a);
        if x == ascii(head) && writes_number(y, a) {
            assert(spells_number(y, a as int));
        }
    }
    let p = split(t, 0x2c);
    if p.len() == 2 {
        lemma_two_pieces(t, 0x2c);
        lemma_number(p[1], a);
        if p[0] == ascii(head) && writes_number(p[1], a) {
            assert(spells_number(p[1], a as int));
        }
    }
    if spells_entry(t, head, a as int) {
        let x = choose|x: Seq<u8>| #[trigger]
            spells_number(x, a as int) && t == word(head) + seq![0x2cu8] + x;
        lemma_number(x, a);
        lemma_parted(word(head), 0x2c, x);
    }
}

proof fn lemma_guid_commaless(t: Seq<u8>, g: Seq<u8>)
    requires
        spells_guid(t, g),
    ensures
        without(t, 0x2c),
{
    assert forall|k: int| 0 <= k < t.len() implies #[trigger] t[k] != 0x2c by {
        let i = k / 2;
        assert(spells_byte(t[2 * i], t[2 * i + 1], g[i]));
        assert(k == 2 * i || k == 2 * i + 1);
    }
}

#[verifier::rlimit(40)]
proof fn lemma_volume(t: Seq<u8>, l: LayerModel)
    requires
        l is Volume,
    ensures
        writes_body(t, l) <==> spells_body(t, l),
{
    if let LayerModel::Volume { scheme, index, guid } = l {
        let head = volume_name(scheme);
        crate::tokens::lemma_volume_name(scheme);
        crate::tokens::lemma_name(head);
        lemma_word(head);
        match guid {
            None => lemma_entry(t, head, index as nat),
            Some(g) => {
                let p = split(t, 0x2c);
                if writes_body(t, l) {
                    lemma_three_pieces(t, 0x2c);
                    let x = p[0] + seq![0x2cu8] + p[1];
                    lemma_number(p[1], index as nat);
                    lemma_guid(p[2], g);
                    assert(spells_number(p[1], index as int));
                    assert(spells_entry(x, head, index as int));
                    assert(spells_guid(p[2], g));
                    assert(t =~= x + seq![0x2cu8] + p[2]);
                }
                if spells_body(t, l) {
                    let (x, y) = choose|x: Seq<u8>, y: Seq<u8>| #[trigger]
                        spells_entry(x, head, index as int) && #[trigger] spells_guid(y, g) && t
                            == x + seq![0x2cu8] + y;
                    let n = choose|n: Seq<u8>| #[trigger]
                        spells_number(n, index as int) && x == word(head) + seq![0x2cu8] + n;
                    lemma_number(n, index as nat);
                    lemma_guid(y, g);
                    lemma_guid_commaless(y, g);
                    lemma_parted(n, 0x2c, y);
                    lemma_parted(word(head), 0x2c, n + seq![0x2cu8] + y);
                    assert(t =~= word(head) + seq![0x2cu8] + (n + seq![0x2cu8] + y));
                    assert(p =~= seq![word(head), n, y]);
                }
            },
        }
    }
}

proof fn lemma_range(t: Seq<u8>, l: LayerModel)
    requires
        l is Range,
    ensures
        writes_body(t, l) <==> spells_body(t, l),
{
    if let LayerModel::Range { start, len } = l {
        if let Some((x, y)) = split_once(t, 0x2c) {
            crate::text_laws::a_text_is_parted_at_the_first_delimiter(t, 0x2c);
            lemma_number(x, start as nat);
            lemma_number(y, len as nat);
            if writes_body(t, l) {
                assert(spells_number(x, start as int) && spells_number(y, len as int));
            }
        }
        if spells_body(t, l) {
            let (x, y) = choose|x: Seq<u8>, y: Seq<u8>| #[trigger]
                spells_number(x, start as int) && #[trigger] spells_number(y, len as int) && t == x
                    + seq![0x2cu8] + y;
            lemma_number(x, start as nat);
            lemma_number(y, len as nat);
            lemma_parted(x, 0x2c, y);
        }
    }
}

proof fn lemma_fs(t: Seq<u8>, l: LayerModel)
    requires
        l is Fs,
    ensures
        writes_body(t, l) <==> spells_body(t, l),
{
    if let LayerModel::Fs { kind, at } = l {
        let head = fs_name(kind);
        crate::tokens::lemma_fs_name(kind);
        crate::tokens::lemma_name(head);
        lemma_word(head);
        if let Some((x, y)) = split_once(t, 0x2c) {
            crate::text_laws::a_text_is_parted_at_the_first_delimiter(t, 0x2c);
            lemma_addr(y, at);
            if writes_body(t, l) {
                assert(spells_addr(y, at));
            }
        }
        if spells_body(t, l) {
            let x = choose|x: Seq<u8>| #[trigger]
                spells_addr(x, at) && t == word(head) + seq![0x2cu8] + x;
            lemma_addr(x, at);
            lemma_parted(word(head), 0x2c, x);
        }
    }
}

proof fn lemma_body(t: Seq<u8>, l: LayerModel)
    ensures
        writes_body(t, l) <==> spells_body(t, l),
{
    match l {
        LayerModel::Os { path } => lemma_unescapes(t, path),
        LayerModel::Range { .. } => lemma_range(t, l),
        LayerModel::Container { format } => lemma_word(container_name(format)),
        LayerModel::Volume { .. } => lemma_volume(t, l),
        LayerModel::Crypto { scheme } => lemma_word(crypto_name(scheme)),
        LayerModel::Encryption { scheme } => lemma_word(encryption_name(scheme)),
        LayerModel::Archive { member } => {
            if let Some(i) = member {
                lemma_number(t, i as nat);
            }
        },
        LayerModel::Snapshot { store } => {
            crate::uri::lemma_snapshot_heads();
            match store {
                SnapshotRef::VssStore(i) => lemma_entry(t, "vss"@, i as nat),
                SnapshotRef::ApfsXid(x) => lemma_entry(t, "apfs"@, x as nat),
            }
        },
        LayerModel::Fs { .. } => lemma_fs(t, l),
        LayerModel::Stream { id } => lemma_stream(t, id),
    }
}

pub(crate) proof fn lemma_layer(t: Seq<u8>, l: LayerModel)
    ensures
        writes_layer(t, l) <==> spells_layer(t, l),
{
    crate::uri::lemma_tags();
    let head = tag_word(l);
    assert(head == tag(l));
    crate::tokens::lemma_name(head);
    lemma_word(head);
    if writes_layer(t, l) {
        if let Some((x, y)) = split_once(t, 0x3a) {
            crate::text_laws::a_text_is_parted_at_the_first_delimiter(t, 0x3a);
            lemma_body(y, l);
            assert(spells_body(y, l));
        }
    }
    if spells_layer(t, l) {
        let x = choose|x: Seq<u8>| #[trigger]
            spells_body(x, l) && t == word(head) + seq![0x3au8] + x;
        lemma_body(x, l);
        lemma_parted(word(head), 0x3a, x);
    }
}

/// A text writes a locator exactly when it spells it.
pub proof fn what_is_written_is_spelled(t: Seq<u8>, ls: Seq<LayerModel>)
    ensures
        writes_chain(t, ls) <==> spells(t, ls),
{
    lemma_word("fvfs:"@);
    reveal_strlit("fvfs:");
    if writes_chain(t, ls) {
        let pieces = split(t.skip(5), 0x7c);
        lemma_joined_split(t.skip(5), 0x7c);
        assert(spells_layers(pieces, ls)) by {
            assert forall|i: int| 0 <= i < ls.len() implies without(#[trigger] pieces[i], 0x7c)
                && spells_layer(pieces[i], ls[i]) by {
                lemma_layer(pieces[i], ls[i]);
            }
        }
        assert(t =~= t.take(5) + t.skip(5));
    }
    if spells(t, ls) {
        let pieces = choose|pieces: Seq<Seq<u8>>| #[trigger]
            spells_layers(pieces, ls) && t == word("fvfs:"@) + joined(pieces, 0x7c);
        assert forall|i: int| 0 <= i < ls.len() implies writes_layer(#[trigger] pieces[i], ls[i]) by {
            lemma_layer(pieces[i], ls[i]);
        }
        lemma_split_joined(pieces, 0x7c);
        assert(word("fvfs:"@).len() == 5);
        assert(t.take(5) =~= word("fvfs:"@));
        assert(t.skip(5) =~= joined(pieces, 0x7c));
        assert(writes_layers(pieces, ls));
    }
}

/// A text is read as a locator exactly when it spells it; a text that spells none is refused.
pub proof fn a_text_is_read_as_what_it_spells(s: &str, r: VfsResult<PathSpec>)
    requires
        call_ensures(PathSpec::from_uri, (s,), r),
    ensures
        match r {
            Ok(p) => spells(encode_utf8(s@), p@),
            Err(_) => forall|ls: Seq<LayerModel>| !#[trigger] spells(encode_utf8(s@), ls),
        },
{
    let t = encode_utf8(s@);
    match r {
        Ok(p) => what_is_written_is_spelled(t, p@),
        Err(_) => {
            assert forall|ls: Seq<LayerModel>| !#[trigger] spells(t, ls) by {
                what_is_written_is_spelled(t, ls);
            }
        },
    }
}

} // verus!

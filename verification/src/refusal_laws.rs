//! How malformed text of a locator is refused: which fault is reported, and with which piece
//! of the text.

use vstd::prelude::*;
use vstd::utf8::{encode_utf8, valid_utf8};

use crate::crypto::CryptoScheme;
use crate::encryption::EncryptionScheme;
use crate::error::{VfsError, VfsResult};
use crate::fs::FsKind;
use crate::pathspec::{Layer, LayerModel, PathSpec};
use crate::percent::{decoded, reports, Fault};
use crate::registry::ContainerFormat;
use crate::spelling_laws::{joined, spells_layer, spells_number, unescapes};
use crate::text::{ascii, split, split_once, unsigned};
use crate::text_laws::{without, word, worth};
use crate::tokens::{
    container_name, container_named, crypto_name, crypto_named, encryption_name, encryption_named,
    fs_name, fs_named, volume_name, volume_named,
};
use crate::uri::{
    addr_of, chain_of, decoded_all, file_id_of, guid_of, hex_bytes_from, layer_of, layer_parse,
    layers_of, path_of, stream_of, tagged_layer, volume_of,
};
use crate::volume::VolumeScheme;

verus! {

broadcast use vstd::seq::group_seq_axioms;

/// The error names the fault and carries the first bytes, no more than 16, of the piece.
pub open spec fn refuses(e: VfsError, detail: Seq<char>, piece: Seq<u8>) -> bool {
    match e {
        VfsError::Decode { layer, offset, detail: d, bytes } => {
            &&& layer@ == "pathspec-uri"@
            &&& offset == 0
            &&& d@ == detail
            &&& bytes@.len() == if piece.len() < 16 {
                piece.len()
            } else {
                16
            }
            &&& forall|i: int| 0 <= i < bytes@.len() ==> #[trigger] bytes@[i] == piece[i]
        },
        _ => false,
    }
}

// ---------------------------------------------------------------------------
// Escapes
// ---------------------------------------------------------------------------

/// Two bytes that are the text of one or two characters.
pub open spec fn are_text(a: u8, b: u8) -> bool {
    (a < 0x80 && b < 0x80) || (0xc2 <= a <= 0xdf && 0x80 <= b <= 0xbf)
}

/// After `good`, which decodes, stands a percent sign without two hexadecimal digits.
pub open spec fn breaks(t: Seq<u8>, good: Seq<u8>, rest: Seq<u8>) -> bool {
    &&& t == good + seq![0x25u8] + rest
    &&& unescapes(good) is Some
    &&& rest.len() < 2 || worth(rest[0]) < 0 || worth(rest[1]) < 0
}

/// What is wrong with what follows the percent sign.
pub open spec fn escape_detail(rest: Seq<u8>) -> Seq<char> {
    if rest.len() < 2 {
        "truncated percent escape"@
    } else if !are_text(rest[0], rest[1]) {
        "non-ascii percent escape"@
    } else {
        "bad percent hex"@
    }
}

/// The first escape that is not whole is at fault.
pub open spec fn escape_fault(t: Seq<u8>, d: Seq<char>) -> bool {
    exists|good: Seq<u8>, rest: Seq<u8>| #[trigger]
        breaks(t, good, rest) && d == escape_detail(rest)
}

proof fn lemma_are_text(a: u8, b: u8)
    ensures
        valid_utf8(seq![a, b]) <==> are_text(a, b),
{
    let s = seq![a, b];
    reveal_with_fuel(valid_utf8, 3);
    let t = vstd::utf8::pop_first_scalar(s);
    if a < 0x80 {
        assert((a & 0x7f) as u32 == a as u32) by (bit_vector)
            requires
                a < 0x80u8,
        ;
        assert(t =~= seq![b]);
        if b < 0x80 {
            crate::percent::lemma_two_ascii_bytes(a, b);
        } else {
            assert(!vstd::utf8::valid_first_scalar(t));
        }
    } else if 0xc0 <= a && a <= 0xdf && 0x80 <= b && b <= 0xbf {
        let c = vstd::utf8::codepoint_width_2(a, b);
        assert(c == (((a & 0x1f) as u32) << 6) | ((b & 0x3f) as u32));
        assert(((((a & 0x1f) as u32) << 6) | ((b & 0x3f) as u32)) < 0x800u32) by (bit_vector);
        assert(((((a & 0x1f) as u32) << 6) | ((b & 0x3f) as u32)) >= 0x80u32 <==> a
            >= 0xc2u8) by (bit_vector)
            requires
                0xc0u8 <= a <= 0xdfu8,
        ;
        assert(t =~= Seq::<u8>::empty());
    } else {
        assert(!vstd::utf8::valid_leading_and_continuation_bytes_first_codepoint(s));
    }
}

proof fn lemma_breaks(t: Seq<u8>, good: Seq<u8>, rest: Seq<u8>)
    requires
        breaks(t, good, rest),
    ensures
        decoded(t) == Err::<Seq<u8>, Seq<char>>(escape_detail(rest)),
    decreases good.len(),
{
    if good.len() == 0 {
        assert(t[0] == 0x25);
        if rest.len() >= 2 {
            assert(t[1] == rest[0] && t[2] == rest[1]);
            lemma_are_text(t[1], t[2]);
        }
    } else {
        assert(t[0] == good[0]);
        if good[0] != 0x25 {
            let next = good.skip(1);
            assert(t.skip(1) =~= next + seq![0x25u8] + rest);
            lemma_breaks(t.skip(1), next, rest);
        } else {
            let next = good.skip(3);
            assert(t[1] == good[1] && t[2] == good[2]);
            assert(t.skip(3) =~= next + seq![0x25u8] + rest);
            lemma_breaks(t.skip(3), next, rest);
            crate::percent::lemma_two_ascii_bytes(t[1], t[2]);
        }
    }
}

proof fn lemma_broken(t: Seq<u8>, d: Seq<char>)
    requires
        decoded(t) == Err::<Seq<u8>, Seq<char>>(d),
    ensures
        escape_fault(t, d),
    decreases t.len(),
{
    if t[0] != 0x25 {
        lemma_broken(t.skip(1), d);
        let (good, rest) = choose|good: Seq<u8>, rest: Seq<u8>| #[trigger]
            breaks(t.skip(1), good, rest) && d == escape_detail(rest);
        let more = seq![t[0]] + good;
        assert(more.skip(1) =~= good);
        assert(t =~= seq![t[0]] + t.skip(1));
        assert(t =~= more + seq![0x25u8] + rest);
        assert(breaks(t, more, rest));
    } else if t.len() >= 3 && worth(t[1]) >= 0 && worth(t[2]) >= 0 {
        crate::percent::lemma_two_ascii_bytes(t[1], t[2]);
        lemma_broken(t.skip(3), d);
        let (good, rest) = choose|good: Seq<u8>, rest: Seq<u8>| #[trigger]
            breaks(t.skip(3), good, rest) && d == escape_detail(rest);
        let more = t.take(3) + good;
        assert(more.skip(3) =~= good);
        assert(t =~= t.take(3) + t.skip(3));
        assert(t =~= more + seq![0x25u8] + rest);
        assert(breaks(t, more, rest));
    } else {
        let rest = t.skip(1);
        assert(t =~= Seq::<u8>::empty() + seq![0x25u8] + rest);
        assert(breaks(t, Seq::empty(), rest));
        if t.len() >= 3 {
            assert(rest[0] == t[1] && rest[1] == t[2]);
            lemma_are_text(t[1], t[2]);
        }
    }
}

proof fn lemma_escape(t: Seq<u8>, d: Seq<char>)
    ensures
        decoded(t) == Err::<Seq<u8>, Seq<char>>(d) <==> escape_fault(t, d),
        decoded(t) is Ok <==> unescapes(t) is Some,
{
    if decoded(t) == Err::<Seq<u8>, Seq<char>>(d) {
        lemma_broken(t, d);
    }
    if escape_fault(t, d) {
        let (good, rest) = choose|good: Seq<u8>, rest: Seq<u8>| #[trigger]
            breaks(t, good, rest) && d == escape_detail(rest);
        lemma_breaks(t, good, rest);
    }
    crate::spelling_laws::lemma_unescapes(t, Seq::empty());
}

// ---------------------------------------------------------------------------
// Pieces
// ---------------------------------------------------------------------------

/// The pieces of a text: none holds the delimiter, and with it between any two they make up
/// the text.
pub open spec fn pieces_of(p: Seq<Seq<u8>>, t: Seq<u8>, b: u8) -> bool {
    &&& p.len() > 0
    &&& forall|i: int| 0 <= i < p.len() ==> without(#[trigger] p[i], b)
    &&& t == joined(p, b)
}

proof fn lemma_pieces(p: Seq<Seq<u8>>, t: Seq<u8>, b: u8)
    ensures
        pieces_of(p, t, b) <==> p == split(t, b),
{
    crate::spelling_laws::lemma_joined_split(t, b);
    if pieces_of(p, t, b) {
        crate::spelling_laws::lemma_split_joined(p, b);
    }
}

/// The text spells no number up to `max`.
pub open spec fn no_number(t: Seq<u8>, max: int) -> bool {
    forall|n: int| 0 <= n <= max ==> !#[trigger] spells_number(t, n)
}

proof fn lemma_no_number(t: Seq<u8>, max: nat)
    ensures
        unsigned(t, max) is None <==> no_number(t, max as int),
{
    match unsigned(t, max) {
        Some(n) => {
            crate::spelling_laws::lemma_number(t, n);
            assert(spells_number(t, n as int));
        },
        None => {
            assert forall|n: int| 0 <= n <= max implies !#[trigger] spells_number(t, n) by {
                crate::spelling_laws::lemma_number(t, n as nat);
            }
        },
    }
}

/// The first of the pieces that does not decode is at fault.
pub open spec fn piece_fault(p: Seq<Seq<u8>>, d: Seq<char>, c: Seq<u8>) -> bool {
    exists|k: int|
        {
            &&& 0 <= k < p.len()
            &&& c == #[trigger] p[k]
            &&& escape_fault(p[k], d)
            &&& forall|i: int| 0 <= i < k ==> unescapes(#[trigger] p[i]) is Some
        }
}

proof fn lemma_piece_fault(p: Seq<Seq<u8>>, d: Seq<char>, c: Seq<u8>)
    ensures
        decoded_all(p) == Err::<Seq<Seq<u8>>, Fault>(Fault { detail: d, context: c })
            <==> piece_fault(p, d, c),
    decreases p.len(),
{
    if p.len() > 0 {
        let rest = p.skip(1);
        lemma_escape(p[0], d);
        lemma_piece_fault(rest, d, c);
        if decoded(p[0]) is Ok {
            if piece_fault(rest, d, c) {
                let k = choose|k: int|
                    {
                        &&& 0 <= k < rest.len()
                        &&& c == #[trigger] rest[k]
                        &&& escape_fault(rest[k], d)
                        &&& forall|i: int| 0 <= i < k ==> unescapes(#[trigger] rest[i]) is Some
                    };
                assert(p[k + 1] == rest[k]);
                assert forall|i: int| 0 <= i < k + 1 implies unescapes(#[trigger] p[i]) is Some by {
                    if i > 0 {
                        assert(rest[i - 1] == p[i]);
                    }
                }
            }
            if piece_fault(p, d, c) {
                let k = choose|k: int|
                    {
                        &&& 0 <= k < p.len()
                        &&& c == #[trigger] p[k]
                        &&& escape_fault(p[k], d)
                        &&& forall|i: int| 0 <= i < k ==> unescapes(#[trigger] p[i]) is Some
                    };
                assert(k > 0);
                assert(rest[k - 1] == p[k]);
                assert forall|i: int| 0 <= i < k - 1 implies unescapes(
                    #[trigger] rest[i],
                ) is Some by {
                    assert(rest[i] == p[i + 1]);
                }
            }
        } else {
            if piece_fault(p, d, c) {
                let k = choose|k: int|
                    {
                        &&& 0 <= k < p.len()
                        &&& c == #[trigger] p[k]
                        &&& escape_fault(p[k], d)
                        &&& forall|i: int| 0 <= i < k ==> unescapes(#[trigger] p[i]) is Some
                    };
                if k > 0 {
                    assert(unescapes(p[0]) is Some);
                }
            }
        }
    }
}

// ---------------------------------------------------------------------------
// Fields
// ---------------------------------------------------------------------------

/// What is wrong with the pieces of a file id of one number, up to `max`.
pub open spec fn one_fault(p: Seq<Seq<u8>>, max: int, name: Seq<char>, d: Seq<char>) -> bool {
    ||| p.len() == 1 && d == name
    ||| p.len() > 1 && no_number(p[1], max) && d == "expected integer"@
    ||| p.len() > 2 && !no_number(p[1], max) && d == "too many file id fields"@
}

/// What is wrong with the pieces of a file id of two numbers, up to `m` and `n`.
pub open spec fn two_fault(
    p: Seq<Seq<u8>>,
    m: int,
    first: Seq<char>,
    n: int,
    second: Seq<char>,
    d: Seq<char>,
) -> bool {
    ||| p.len() == 1 && d == first
    ||| p.len() > 1 && no_number(p[1], m) && d == "expected integer"@
    ||| p.len() == 2 && !no_number(p[1], m) && d == second
    ||| p.len() > 2 && !no_number(p[1], m) && no_number(p[2], n) && d == "expected integer"@
    ||| p.len() > 3 && !no_number(p[1], m) && !no_number(p[2], n) && d
        == "too many file id fields"@
}

/// What is wrong with the pieces of a file id: its kind, a number that is not there, one that
/// does not fit, or one too many.
pub open spec fn id_parts_fault(p: Seq<Seq<u8>>, d: Seq<char>) -> bool {
    if p[0] == word("ntfsref"@) {
        two_fault(p, 0xffff_ffff_ffff_ffff, "entry"@, 0xffff, "seq"@, d)
    } else if p[0] == word("extinode"@) {
        two_fault(p, 0xffff_ffff_ffff_ffff, "ino"@, 0xffff_ffff, "gen"@, d)
    } else if p[0] == word("apfsoid"@) {
        two_fault(p, 0xffff_ffff_ffff_ffff, "oid"@, 0xffff_ffff_ffff_ffff, "xid"@, d)
    } else if p[0] == word("fatdirentry"@) {
        two_fault(p, 0xffff_ffff, "cluster"@, 0xffff, "index"@, d)
    } else if p[0] == word("isoextent"@) {
        one_fault(p, 0xffff_ffff, "block"@, d)
    } else if p[0] == word("opaque"@) {
        one_fault(p, 0xffff_ffff_ffff_ffff, "n"@, d)
    } else {
        d == "unknown file id kind"@
    }
}

/// What is wrong with a file id.
pub open spec fn id_fault(t: Seq<u8>, d: Seq<char>) -> bool {
    exists|p: Seq<Seq<u8>>| #[trigger] pieces_of(p, t, 0x2e) && id_parts_fault(p, d)
}

proof fn lemma_id_fault(t: Seq<u8>, s: Seq<u8>, d: Seq<char>, c: Seq<u8>)
    ensures
        file_id_of(t, s) == Err::<forensicnomicon_core::FileId, Fault>(
            Fault { detail: d, context: c },
        ) <==> id_fault(t, d) && c == s,
{
    let p = split(t, 0x2e);
    lemma_pieces(p, t, 0x2e);
    lemma_words();
    let wide = u64::MAX as nat;
    let half = u32::MAX as nat;
    let quarter = u16::MAX as nat;
    let numbers = p.skip(1);
    if p.len() > 1 {
        assert(numbers[0] == p[1]);
        lemma_no_number(p[1], wide);
        lemma_no_number(p[1], half);
    }
    if p.len() > 2 {
        assert(numbers.skip(1)[0] == p[2]);
        lemma_no_number(p[2], wide);
        lemma_no_number(p[2], half);
        lemma_no_number(p[2], quarter);
    }
    assert(id_fault(t, d) <==> id_parts_fault(p, d)) by {
        if id_fault(t, d) {
            let q = choose|q: Seq<Seq<u8>>| #[trigger]
                pieces_of(q, t, 0x2e) && id_parts_fault(q, d);
            lemma_pieces(q, t, 0x2e);
        }
    }
}

proof fn lemma_words()
    ensures
        forall|s: Seq<char>| #[trigger] word(s) == ascii(s),
{
    assert forall|s: Seq<char>| #[trigger] word(s) == ascii(s) by {
        crate::spelling_laws::lemma_word(s);
    }
}

/// What is wrong with the pieces of a stream.
pub open spec fn stream_parts_fault(p: Seq<Seq<u8>>, d: Seq<char>) -> bool {
    if p[0] == word("default"@) || p[0] == word("resourcefork"@) || p[0] == word("slack"@) {
        p.len() > 1 && d == "too many stream fields"@
    } else if p[0] == word("named"@) || p[0] == word("xattr"@) {
        ||| p.len() == 1 && d == "expected u32"@
        ||| p.len() > 1 && no_number(p[1], 0xffff) && d == "expected u32"@
        ||| p.len() > 2 && !no_number(p[1], 0xffff) && d == "too many stream fields"@
    } else {
        d == "unknown stream id"@
    }
}

/// What is wrong with a stream.
pub open spec fn stream_fault(t: Seq<u8>, d: Seq<char>) -> bool {
    exists|p: Seq<Seq<u8>>| #[trigger] pieces_of(p, t, 0x2e) && stream_parts_fault(p, d)
}

proof fn lemma_stream_fault(t: Seq<u8>, s: Seq<u8>, d: Seq<char>, c: Seq<u8>)
    ensures
        stream_of(t, s) == Err::<crate::fs::StreamId, Fault>(Fault { detail: d, context: c })
            <==> stream_fault(t, d) && c == s,
{
    let p = split(t, 0x2e);
    lemma_pieces(p, t, 0x2e);
    lemma_words();
    if p.len() > 1 {
        lemma_no_number(p[1], u16::MAX as nat);
    } else {
        assert(unsigned(Seq::empty(), u16::MAX as nat) is None);
    }
    assert(stream_fault(t, d) <==> stream_parts_fault(p, d)) by {
        if stream_fault(t, d) {
            let q = choose|q: Seq<Seq<u8>>| #[trigger]
                pieces_of(q, t, 0x2e) && stream_parts_fault(q, d);
            lemma_pieces(q, t, 0x2e);
        }
    }
}

/// What follows the first two bytes.
pub open spec fn after_two(t: Seq<u8>) -> Seq<u8> {
    if t.len() > 1 {
        t.skip(2)
    } else {
        Seq::empty()
    }
}

/// What is wrong with a file id and the components after it.
pub open spec fn both_fault(p: Seq<Seq<u8>>, s: Seq<u8>, d: Seq<char>, c: Seq<u8>) -> bool {
    if exists|any: Seq<char>| #[trigger] id_fault(p[0], any) {
        id_fault(p[0], d) && c == s
    } else {
        piece_fault(p.skip(1), d, c)
    }
}

/// What is wrong with an address in the layer `s`, and the piece that shows it: the layer, or
/// the component that does not decode.
pub open spec fn addr_fault(t: Seq<u8>, s: Seq<u8>, d: Seq<char>, c: Seq<u8>) -> bool {
    if t.len() == 0 || (t[0] != 0x70 && t[0] != 0x66 && t[0] != 0x62) {
        d == "unknown node address"@ && c == s
    } else if t.len() > 1 && t[1] != 0x2f {
        d == "unknown node address"@ && c == s
    } else if t[0] == 0x70 {
        t.len() > 1 && exists|p: Seq<Seq<u8>>| #[trigger]
            pieces_of(p, t.skip(2), 0x2f) && piece_fault(p, d, c)
    } else if t[0] == 0x66 {
        id_fault(after_two(t), d) && c == s
    } else {
        exists|p: Seq<Seq<u8>>| #[trigger]
            pieces_of(p, after_two(t), 0x2f) && both_fault(p, s, d, c)
    }
}

proof fn lemma_any_id_fault(t: Seq<u8>, s: Seq<u8>)
    ensures
        file_id_of(t, s) is Err <==> exists|any: Seq<char>| #[trigger] id_fault(t, any),
{
    if let Err(f) = file_id_of(t, s) {
        lemma_id_fault(t, s, f.detail, f.context);
        assert(id_fault(t, f.detail));
    }
    if exists|any: Seq<char>| #[trigger] id_fault(t, any) {
        let any = choose|any: Seq<char>| #[trigger] id_fault(t, any);
        lemma_id_fault(t, s, any, s);
    }
}

proof fn lemma_path_fault(t: Seq<u8>, s: Seq<u8>, d: Seq<char>, c: Seq<u8>)
    requires
        t.len() > 0,
        t[0] == 0x2f,
    ensures
        path_of(t, s) == Err::<Seq<Seq<u8>>, Fault>(Fault { detail: d, context: c })
            <==> exists|p: Seq<Seq<u8>>| #[trigger]
            pieces_of(p, t.skip(1), 0x2f) && piece_fault(p, d, c),
{
    let p = split(t.skip(1), 0x2f);
    lemma_pieces(p, t.skip(1), 0x2f);
    lemma_piece_fault(p, d, c);
    if exists|q: Seq<Seq<u8>>| #[trigger]
        pieces_of(q, t.skip(1), 0x2f) && piece_fault(q, d, c) {
        let q = choose|q: Seq<Seq<u8>>| #[trigger]
            pieces_of(q, t.skip(1), 0x2f) && piece_fault(q, d, c);
        lemma_pieces(q, t.skip(1), 0x2f);
    }
}

proof fn lemma_both_fault(t: Seq<u8>, s: Seq<u8>, d: Seq<char>, c: Seq<u8>)
    requires
        t.len() > 0,
        t[0] == 0x62,
        t.len() > 1 ==> t[1] == 0x2f,
    ensures
        addr_of(t, s) == Err::<crate::pathspec::AddrModel, Fault>(Fault { detail: d, context: c })
            <==> addr_fault(t, s, d, c),
{
    let rest = after_two(t);
    if t.len() > 1 {
        assert(t.skip(1).skip(1) =~= rest);
        assert(t.skip(1)[0] == t[1]);
    } else {
        assert(t.skip(1) =~= rest);
    }
    let p = split(rest, 0x2f);
    lemma_pieces(p, rest, 0x2f);
    lemma_any_id_fault(p[0], s);
    lemma_id_fault(p[0], s, d, c);
    lemma_piece_fault(p.skip(1), d, c);
    match split_once(rest, 0x2f) {
        Some((_, tail)) => {
            crate::text::lemma_find(rest, 0x2f);
            assert(p.skip(1) =~= split(tail, 0x2f));
        },
        None => {
            crate::text::lemma_find(rest, 0x2f);
            assert(p.skip(1).len() == 0);
        },
    }
    assert(addr_fault(t, s, d, c) <==> both_fault(p, s, d, c)) by {
        if addr_fault(t, s, d, c) {
            let q = choose|q: Seq<Seq<u8>>| #[trigger]
                pieces_of(q, rest, 0x2f) && both_fault(q, s, d, c);
            lemma_pieces(q, rest, 0x2f);
        }
    }
}

proof fn lemma_addr_fault(t: Seq<u8>, s: Seq<u8>, d: Seq<char>, c: Seq<u8>)
    ensures
        addr_of(t, s) == Err::<crate::pathspec::AddrModel, Fault>(Fault { detail: d, context: c })
            <==> addr_fault(t, s, d, c),
{
    if t.len() > 0 {
        let rest = t.skip(1);
        if t.len() > 1 {
            assert(rest[0] == t[1]);
            assert(rest.skip(1) =~= t.skip(2));
        } else {
            assert(rest =~= Seq::<u8>::empty());
        }
        if t.len() > 1 && t[1] != 0x2f {
        } else if t[0] == 0x70 {
            if t.len() > 1 {
                lemma_path_fault(rest, s, d, c);
            }
        } else if t[0] == 0x66 {
            lemma_id_fault(after_two(t), s, d, c);
        } else if t[0] == 0x62 {
            lemma_both_fault(t, s, d, c);
        }
    }
}

/// A character begins at `k`, or the text ends there.
pub open spec fn begins(t: Seq<u8>, k: int) -> bool {
    k == 0 || k == t.len() || t[k] < 0x80 || t[k] > 0xbf
}

/// Two hexadecimal digits stand at `k`.
pub open spec fn digits_at(t: Seq<u8>, k: int) -> bool {
    worth(t[k]) >= 0 && worth(t[k + 1]) >= 0
}

/// What is wrong with a GUID: its length, or the first pair that is not two digits.
pub open spec fn guid_fault(t: Seq<u8>, d: Seq<char>) -> bool {
    if t.len() != 32 {
        d == "guid must be 32 hex chars"@
    } else {
        exists|k: int|
            {
                &&& 0 <= k < 16
                &&& !#[trigger] digits_at(t, 2 * k)
                &&& forall|i: int| 0 <= i < k ==> #[trigger] digits_at(t, 2 * i)
                &&& d == if begins(t, 2 * k) && begins(t, 2 * k + 2) {
                    "bad guid hex"@
                } else {
                    "bad guid"@
                }
            }
    }
}

proof fn lemma_hex_fault(t: Seq<u8>, n: int, s: Seq<u8>, d: Seq<char>, c: Seq<u8>, k: int)
    requires
        t.len() == 32,
        0 <= n <= k <= 16,
        k < 16 ==> !digits_at(t, 2 * k),
        forall|i: int| 0 <= i < k ==> #[trigger] digits_at(t, 2 * i),
    ensures
        hex_bytes_from(t, n, s) == Err::<Seq<u8>, Fault>(Fault { detail: d, context: c }) <==> (k
            < 16 && c == s && d == if begins(t, 2 * k) && begins(t, 2 * k + 2) {
            "bad guid hex"@
        } else {
            "bad guid"@
        }),
    decreases k - n,
{
    if n < k {
        assert(digits_at(t, 2 * n));
        if n + 1 < k {
            assert(digits_at(t, 2 * (n + 1)));
        }
        lemma_hex_fault(t, n + 1, s, d, c, k);
    }
}

/// The first pair of `t` that is not two digits, from the `n`th on; 16 when there is none.
spec fn first_bad(t: Seq<u8>, n: int) -> int
    decreases 16 - n,
{
    if n >= 16 || !digits_at(t, 2 * n) {
        n
    } else {
        first_bad(t, n + 1)
    }
}

proof fn lemma_first_bad(t: Seq<u8>, n: int)
    requires
        0 <= n <= 16,
        forall|i: int| 0 <= i < n ==> #[trigger] digits_at(t, 2 * i),
    ensures
        n <= first_bad(t, n) <= 16,
        first_bad(t, n) < 16 ==> !digits_at(t, 2 * first_bad(t, n)),
        forall|i: int| 0 <= i < first_bad(t, n) ==> #[trigger] digits_at(t, 2 * i),
    decreases 16 - n,
{
    if n < 16 && digits_at(t, 2 * n) {
        assert forall|i: int| 0 <= i < n + 1 implies #[trigger] digits_at(t, 2 * i) by {}
        lemma_first_bad(t, n + 1);
    }
}

proof fn lemma_guid_fault(t: Seq<u8>, s: Seq<u8>, d: Seq<char>, c: Seq<u8>)
    ensures
        guid_of(t, s) == Err::<Seq<u8>, Fault>(Fault { detail: d, context: c }) <==> guid_fault(t, d)
            && c == s,
{
    if t.len() == 32 {
        lemma_first_bad(t, 0);
        let k = first_bad(t, 0);
        lemma_hex_fault(t, 0, s, d, c, k);
        if guid_fault(t, d) {
            let j = choose|j: int|
                {
                    &&& 0 <= j < 16
                    &&& !#[trigger] digits_at(t, 2 * j)
                    &&& forall|i: int| 0 <= i < j ==> #[trigger] digits_at(t, 2 * i)
                    &&& d == if begins(t, 2 * j) && begins(t, 2 * j + 2) {
                        "bad guid hex"@
                    } else {
                        "bad guid"@
                    }
                };
            assert(j <= k);
            assert(k <= j) by {
                if j < k {
                    assert(digits_at(t, 2 * j));
                }
            }
        }
    }
}

/// The GUID decodes.
pub open spec fn no_guid_fault(t: Seq<u8>) -> bool {
    forall|d: Seq<char>| !#[trigger] guid_fault(t, d)
}

proof fn lemma_no_guid_fault(t: Seq<u8>, s: Seq<u8>)
    ensures
        guid_of(t, s) is Ok <==> no_guid_fault(t),
{
    match guid_of(t, s) {
        Err(f) => {
            lemma_guid_fault(t, s, f.detail, f.context);
            assert(guid_fault(t, f.detail));
        },
        Ok(_) => {
            assert forall|d: Seq<char>| !#[trigger] guid_fault(t, d) by {
                lemma_guid_fault(t, s, d, s);
            }
        },
    }
}

// ---------------------------------------------------------------------------
// Layers
// ---------------------------------------------------------------------------

/// The text names no volume scheme.
pub open spec fn no_volume(t: Seq<u8>) -> bool {
    forall|v: VolumeScheme| t != word(#[trigger] volume_name(v))
}

/// The text names no container format.
pub open spec fn no_container(t: Seq<u8>) -> bool {
    forall|v: ContainerFormat| t != word(#[trigger] container_name(v))
}

/// The text names no crypto scheme.
pub open spec fn no_crypto(t: Seq<u8>) -> bool {
    forall|v: CryptoScheme| t != word(#[trigger] crypto_name(v))
}

/// The text names no encryption scheme.
pub open spec fn no_encryption(t: Seq<u8>) -> bool {
    forall|v: EncryptionScheme| t != word(#[trigger] encryption_name(v))
}

/// The text names no filesystem.
pub open spec fn no_fs(t: Seq<u8>) -> bool {
    forall|v: FsKind| t != word(#[trigger] fs_name(v))
}

proof fn lemma_no_volume(t: Seq<u8>)
    ensures
        volume_named(t) is None <==> no_volume(t),
{
    lemma_words();
    match volume_named(t) {
        Some(v) => {
            assert(t == word(volume_name(v)));
        },
        None => {
            assert forall|v: VolumeScheme| t != word(#[trigger] volume_name(v)) by {
                crate::tokens::lemma_volume_name(v);
            }
        },
    }
}

proof fn lemma_no_container(t: Seq<u8>)
    ensures
        container_named(t) is None <==> no_container(t),
{
    lemma_words();
    match container_named(t) {
        Some(v) => {
            assert(t == word(container_name(v)));
        },
        None => {
            assert forall|v: ContainerFormat| t != word(#[trigger] container_name(v)) by {
                crate::tokens::lemma_container_name(v);
            }
        },
    }
}

proof fn lemma_no_crypto(t: Seq<u8>)
    ensures
        crypto_named(t) is None <==> no_crypto(t),
{
    lemma_words();
    match crypto_named(t) {
        Some(v) => {
            assert(t == word(crypto_name(v)));
        },
        None => {
            assert forall|v: CryptoScheme| t != word(#[trigger] crypto_name(v)) by {
                crate::tokens::lemma_crypto_name(v);
            }
        },
    }
}

proof fn lemma_no_encryption(t: Seq<u8>)
    ensures
        encryption_named(t) is None <==> no_encryption(t),
{
    lemma_words();
    match encryption_named(t) {
        Some(v) => {
            assert(t == word(encryption_name(v)));
        },
        None => {
            assert forall|v: EncryptionScheme| t != word(#[trigger] encryption_name(v)) by {
                crate::tokens::lemma_encryption_name(v);
            }
        },
    }
}

proof fn lemma_no_fs(t: Seq<u8>)
    ensures
        fs_named(t) is None <==> no_fs(t),
{
    lemma_words();
    match fs_named(t) {
        Some(v) => {
            assert(t == word(fs_name(v)));
        },
        None => {
            assert forall|v: FsKind| t != word(#[trigger] fs_name(v)) by {
                crate::tokens::lemma_fs_name(v);
            }
        },
    }
}

/// What is wrong with the pieces of a volume: its scheme, its index, its GUID, or a piece too
/// many.
pub open spec fn volume_parts_fault(p: Seq<Seq<u8>>, d: Seq<char>) -> bool {
    if no_volume(p[0]) {
        d == "unknown volume scheme"@
    } else if p.len() == 1 {
        d == "volume needs index"@
    } else if no_number(p[1], usize::MAX as int) {
        d == "expected index"@
    } else {
        ||| p.len() > 2 && guid_fault(p[2], d)
        ||| p.len() > 3 && no_guid_fault(p[2]) && d == "too many volume fields"@
    }
}

/// What is wrong with a volume.
pub open spec fn volume_fault(t: Seq<u8>, d: Seq<char>) -> bool {
    exists|p: Seq<Seq<u8>>| #[trigger] pieces_of(p, t, 0x2c) && volume_parts_fault(p, d)
}

proof fn lemma_volume_fault(t: Seq<u8>, s: Seq<u8>, d: Seq<char>, c: Seq<u8>)
    ensures
        volume_of(t, s) == Err::<LayerModel, Fault>(Fault { detail: d, context: c })
            <==> volume_fault(t, d) && c == s,
{
    let p = split(t, 0x2c);
    lemma_pieces(p, t, 0x2c);
    lemma_no_volume(p[0]);
    if p.len() > 1 {
        lemma_no_number(p[1], usize::MAX as nat);
    }
    if p.len() > 2 {
        lemma_guid_fault(p[2], s, d, c);
        lemma_guid_fault(p[2], s, d, s);
        lemma_no_guid_fault(p[2], s);
    }
    assert(volume_fault(t, d) <==> volume_parts_fault(p, d)) by {
        if volume_fault(t, d) {
            let q = choose|q: Seq<Seq<u8>>| #[trigger]
                pieces_of(q, t, 0x2c) && volume_parts_fault(q, d);
            lemma_pieces(q, t, 0x2c);
        }
    }
}

/// `t` is `x` and `y` with the first delimiter between them.
pub open spec fn parted(t: Seq<u8>, b: u8, x: Seq<u8>, y: Seq<u8>) -> bool {
    t == x + seq![b] + y && without(x, b)
}

proof fn lemma_parts(t: Seq<u8>, b: u8, x: Seq<u8>, y: Seq<u8>)
    ensures
        split_once(t, b) == Some((x, y)) <==> parted(t, b, x, y),
        split_once(t, b) is None <==> without(t, b),
{
    crate::text_laws::a_text_is_parted_at_the_first_delimiter(t, b);
    if parted(t, b, x, y) {
        crate::spelling_laws::lemma_parted(x, b, y);
    }
    if without(t, b) {
        crate::text::lemma_split_one(t, b);
    }
}

/// What is wrong with a range.
pub open spec fn range_fault(t: Seq<u8>, d: Seq<char>) -> bool {
    ||| without(t, 0x2c) && d == "range needs start,len"@
    ||| d == "expected integer"@ && exists|x: Seq<u8>, y: Seq<u8>| #[trigger]
        parted(t, 0x2c, x, y) && (no_number(x, u64::MAX as int) || no_number(y, u64::MAX as int))
}

/// What is wrong with a snapshot.
pub open spec fn snapshot_fault(t: Seq<u8>, d: Seq<char>) -> bool {
    ||| without(t, 0x2c) && d == "snapshot needs kind,id"@
    ||| exists|x: Seq<u8>, y: Seq<u8>| #[trigger]
        parted(t, 0x2c, x, y) && if x == word("vss"@) {
            no_number(y, usize::MAX as int) && d == "expected index"@
        } else if x == word("apfs"@) {
            no_number(y, u64::MAX as int) && d == "expected integer"@
        } else {
            d == "unknown snapshot kind"@
        }
}

/// What is wrong with a filesystem layer `s`, and the piece that shows it.
pub open spec fn fs_fault(t: Seq<u8>, s: Seq<u8>, d: Seq<char>, c: Seq<u8>) -> bool {
    ||| without(t, 0x2c) && d == "fs needs kind,addr"@ && c == s
    ||| exists|x: Seq<u8>, y: Seq<u8>| #[trigger]
        parted(t, 0x2c, x, y) && if no_fs(x) {
            d == "unknown filesystem kind"@ && c == s
        } else {
            addr_fault(y, s, d, c)
        }
}

/// What is wrong with the layer `s` of that tag and body, and the piece that shows it: the
/// layer, or what does not decode.
pub open spec fn body_fault(
    x: Seq<u8>,
    y: Seq<u8>,
    s: Seq<u8>,
    d: Seq<char>,
    c: Seq<u8>,
) -> bool {
    if x == word("os"@) {
        escape_fault(y, d) && c == y
    } else if x == word("range"@) {
        range_fault(y, d) && c == s
    } else if x == word("container"@) {
        no_container(y) && d == "unknown container format"@ && c == s
    } else if x == word("volume"@) {
        volume_fault(y, d) && c == s
    } else if x == word("crypto"@) {
        no_crypto(y) && d == "unknown crypto scheme"@ && c == s
    } else if x == word("encryption"@) {
        no_encryption(y) && d == "unknown encryption scheme"@ && c == s
    } else if x == word("archive"@) {
        y.len() > 0 && no_number(y, usize::MAX as int) && d == "expected index"@ && c == s
    } else if x == word("snapshot"@) {
        snapshot_fault(y, d) && c == s
    } else if x == word("fs"@) {
        fs_fault(y, s, d, c)
    } else if x == word("stream"@) {
        stream_fault(y, d) && c == s
    } else {
        d == "unknown layer tag"@ && c == s
    }
}

/// What is wrong with the layer, and the piece that shows it.
pub open spec fn layer_fault(s: Seq<u8>, d: Seq<char>, c: Seq<u8>) -> bool {
    ||| without(s, 0x3a) && d == "layer missing tag"@ && c == s
    ||| exists|x: Seq<u8>, y: Seq<u8>| #[trigger]
        parted(s, 0x3a, x, y) && body_fault(x, y, s, d, c)
}

proof fn lemma_range_fault(t: Seq<u8>, s: Seq<u8>, d: Seq<char>, c: Seq<u8>)
    ensures
        crate::uri::range_of(t, s) == Err::<LayerModel, Fault>(Fault { detail: d, context: c })
            <==> range_fault(t, d) && c == s,
{
    match split_once(t, 0x2c) {
        Some((x, y)) => {
            lemma_parts(t, 0x2c, x, y);
            lemma_no_number(x, u64::MAX as nat);
            lemma_no_number(y, u64::MAX as nat);
            assert forall|v: Seq<u8>, w: Seq<u8>| #[trigger] parted(t, 0x2c, v, w) implies v == x
                && w == y by {
                lemma_parts(t, 0x2c, v, w);
            }
        },
        None => {
            assert forall|v: Seq<u8>, w: Seq<u8>| !#[trigger] parted(t, 0x2c, v, w) by {
                lemma_parts(t, 0x2c, v, w);
            }
            lemma_parts(t, 0x2c, t, t);
        },
    }
}

proof fn lemma_snapshot_fault(t: Seq<u8>, s: Seq<u8>, d: Seq<char>, c: Seq<u8>)
    ensures
        crate::uri::snapshot_of(t, s) == Err::<LayerModel, Fault>(Fault { detail: d, context: c })
            <==> snapshot_fault(t, d) && c == s,
{
    lemma_words();
    match split_once(t, 0x2c) {
        Some((x, y)) => {
            lemma_parts(t, 0x2c, x, y);
            lemma_no_number(y, u64::MAX as nat);
            lemma_no_number(y, usize::MAX as nat);
            assert forall|v: Seq<u8>, w: Seq<u8>| #[trigger] parted(t, 0x2c, v, w) implies v == x
                && w == y by {
                lemma_parts(t, 0x2c, v, w);
            }
        },
        None => {
            assert forall|v: Seq<u8>, w: Seq<u8>| !#[trigger] parted(t, 0x2c, v, w) by {
                lemma_parts(t, 0x2c, v, w);
            }
            lemma_parts(t, 0x2c, t, t);
        },
    }
}

proof fn lemma_fs_fault(t: Seq<u8>, s: Seq<u8>, d: Seq<char>, c: Seq<u8>)
    ensures
        crate::uri::fs_of(t, s) == Err::<LayerModel, Fault>(Fault { detail: d, context: c })
            <==> fs_fault(t, s, d, c),
{
    match split_once(t, 0x2c) {
        Some((x, y)) => {
            lemma_parts(t, 0x2c, x, y);
            lemma_no_fs(x);
            lemma_addr_fault(y, s, d, c);
            assert forall|v: Seq<u8>, w: Seq<u8>| #[trigger] parted(t, 0x2c, v, w) implies v == x
                && w == y by {
                lemma_parts(t, 0x2c, v, w);
            }
        },
        None => {
            assert forall|v: Seq<u8>, w: Seq<u8>| !#[trigger] parted(t, 0x2c, v, w) by {
                lemma_parts(t, 0x2c, v, w);
            }
            lemma_parts(t, 0x2c, t, t);
        },
    }
}

proof fn lemma_body_fault(x: Seq<u8>, y: Seq<u8>, s: Seq<u8>, d: Seq<char>, c: Seq<u8>)
    ensures
        tagged_layer(x, y, s) == Err::<LayerModel, Fault>(Fault { detail: d, context: c })
            <==> body_fault(x, y, s, d, c),
{
    lemma_words();
    lemma_escape(y, d);
    lemma_range_fault(y, s, d, c);
    lemma_no_container(y);
    lemma_volume_fault(y, s, d, c);
    lemma_no_crypto(y);
    lemma_no_encryption(y);
    lemma_no_number(y, usize::MAX as nat);
    lemma_snapshot_fault(y, s, d, c);
    lemma_fs_fault(y, s, d, c);
    lemma_stream_fault(y, s, d, c);
}

proof fn lemma_layer_fault(s: Seq<u8>, d: Seq<char>, c: Seq<u8>)
    ensures
        layer_of(s) == Err::<LayerModel, Fault>(Fault { detail: d, context: c }) <==> layer_fault(
            s,
            d,
            c,
        ),
{
    match split_once(s, 0x3a) {
        Some((x, y)) => {
            lemma_parts(s, 0x3a, x, y);
            lemma_body_fault(x, y, s, d, c);
            assert forall|v: Seq<u8>, w: Seq<u8>| #[trigger] parted(s, 0x3a, v, w) implies v == x
                && w == y by {
                lemma_parts(s, 0x3a, v, w);
            }
        },
        None => {
            assert forall|v: Seq<u8>, w: Seq<u8>| !#[trigger] parted(s, 0x3a, v, w) by {
                lemma_parts(s, 0x3a, v, w);
            }
            lemma_parts(s, 0x3a, s, s);
        },
    }
}

/// The text spells a layer.
pub open spec fn is_layer(t: Seq<u8>) -> bool {
    exists|l: LayerModel| #[trigger] spells_layer(t, l)
}

proof fn lemma_is_layer(t: Seq<u8>)
    ensures
        layer_of(t) is Ok <==> is_layer(t),
{
    if let Ok(l) = layer_of(t) {
        crate::grammar::layer_is_read_exactly_as_written(t, l);
        crate::spelling_laws::lemma_layer(t, l);
        assert(spells_layer(t, l));
    }
    if is_layer(t) {
        let l = choose|l: LayerModel| #[trigger] spells_layer(t, l);
        crate::grammar::layer_is_read_exactly_as_written(t, l);
        crate::spelling_laws::lemma_layer(t, l);
    }
}

/// The first of the pieces that spells no layer is at fault.
pub open spec fn layers_fault(p: Seq<Seq<u8>>, d: Seq<char>, c: Seq<u8>) -> bool {
    exists|k: int|
        {
            &&& 0 <= k < p.len()
            &&& layer_fault(#[trigger] p[k], d, c)
            &&& forall|i: int| 0 <= i < k ==> is_layer(#[trigger] p[i])
        }
}

proof fn lemma_layers_fault(p: Seq<Seq<u8>>, d: Seq<char>, c: Seq<u8>)
    ensures
        layers_of(p) == Err::<Seq<LayerModel>, Fault>(Fault { detail: d, context: c })
            <==> layers_fault(p, d, c),
    decreases p.len(),
{
    if p.len() > 0 {
        let rest = p.skip(1);
        lemma_layer_fault(p[0], d, c);
        lemma_is_layer(p[0]);
        lemma_layers_fault(rest, d, c);
        if layers_fault(rest, d, c) && is_layer(p[0]) {
            let k = choose|k: int|
                {
                    &&& 0 <= k < rest.len()
                    &&& layer_fault(#[trigger] rest[k], d, c)
                    &&& forall|i: int| 0 <= i < k ==> is_layer(#[trigger] rest[i])
                };
            assert(p[k + 1] == rest[k]);
            assert forall|i: int| 0 <= i < k + 1 implies is_layer(#[trigger] p[i]) by {
                if i > 0 {
                    assert(rest[i - 1] == p[i]);
                }
            }
        }
        if layers_fault(p, d, c) {
            let k = choose|k: int|
                {
                    &&& 0 <= k < p.len()
                    &&& layer_fault(#[trigger] p[k], d, c)
                    &&& forall|i: int| 0 <= i < k ==> is_layer(#[trigger] p[i])
                };
            if k > 0 {
                assert(is_layer(p[0]));
                assert(rest[k - 1] == p[k]);
                assert forall|i: int| 0 <= i < k - 1 implies is_layer(#[trigger] rest[i]) by {
                    assert(rest[i] == p[i + 1]);
                }
            }
        }
    }
}

/// What is wrong with the text of a locator, and the piece that shows it: the scheme is not
/// there, or the first layer that is none.
pub open spec fn text_fault(t: Seq<u8>, d: Seq<char>, c: Seq<u8>) -> bool {
    if t.len() >= 5 && t.take(5) == word("fvfs:"@) {
        exists|p: Seq<Seq<u8>>| #[trigger]
            pieces_of(p, t.skip(5), 0x7c) && layers_fault(p, d, c)
    } else {
        d == "missing fvfs: scheme"@ && c == t
    }
}

proof fn lemma_text_fault(t: Seq<u8>, d: Seq<char>, c: Seq<u8>)
    ensures
        chain_of(t) == Err::<Seq<LayerModel>, Fault>(Fault { detail: d, context: c })
            <==> text_fault(t, d, c),
{
    lemma_words();
    if t.len() >= 5 && t.take(5) == word("fvfs:"@) {
        let rest = t.skip(5);
        let p = split(rest, 0x7c);
        lemma_pieces(p, rest, 0x7c);
        lemma_layers_fault(p, d, c);
        if text_fault(t, d, c) {
            let q = choose|q: Seq<Seq<u8>>| #[trigger]
                pieces_of(q, rest, 0x7c) && layers_fault(q, d, c);
            lemma_pieces(q, rest, 0x7c);
        }
    }
}

proof fn lemma_refuses(e: VfsError, d: Seq<char>, c: Seq<u8>)
    requires
        reports(e, (Fault { detail: d, context: c })),
    ensures
        refuses(e, d, c),
{
}

/// A text that spells no layer is refused for what is wrong with it, with the piece that
/// shows it.
pub proof fn a_bad_layer_is_refused_for_its_fault(s: &[u8], r: VfsResult<Layer>)
    requires
        call_ensures(layer_parse, (s,), r),
    ensures
        match r {
            Ok(l) => spells_layer(s@, l@),
            Err(e) => !is_layer(s@) && exists|d: Seq<char>, c: Seq<u8>| #[trigger]
                layer_fault(s@, d, c) && refuses(e, d, c),
        },
        forall|d: Seq<char>, c: Seq<u8>| #[trigger]
            layer_fault(s@, d, c) ==> (r matches Err(e) && refuses(e, d, c)),
{
    let t = s@;
    match layer_of(t) {
        Ok(l) => {
            crate::grammar::layer_is_read_exactly_as_written(t, l);
            crate::spelling_laws::lemma_layer(t, l);
        },
        Err(f) => {
            lemma_is_layer(t);
            lemma_layer_fault(t, f.detail, f.context);
            assert(layer_fault(t, f.detail, f.context));
            lemma_refuses(r->Err_0, f.detail, f.context);
        },
    }
    assert forall|d: Seq<char>, c: Seq<u8>| #[trigger] layer_fault(t, d, c) implies (r matches Err(e)
        && refuses(e, d, c)) by {
        lemma_layer_fault(t, d, c);
        lemma_refuses(r->Err_0, d, c);
    }
}

/// A text that spells no locator is refused for what is wrong with it: the missing scheme, or
/// the fault of the first layer that is none.
pub proof fn a_bad_text_is_refused_for_its_fault(s: &str, r: VfsResult<PathSpec>)
    requires
        call_ensures(PathSpec::from_uri, (s,), r),
    ensures
        r matches Err(e) ==> exists|d: Seq<char>, c: Seq<u8>| #[trigger]
            text_fault(encode_utf8(s@), d, c) && refuses(e, d, c),
        forall|d: Seq<char>, c: Seq<u8>| #[trigger]
            text_fault(encode_utf8(s@), d, c) ==> (r matches Err(e) && refuses(e, d, c)),
{
    let t = encode_utf8(s@);
    if let Err(f) = chain_of(t) {
        lemma_text_fault(t, f.detail, f.context);
        assert(text_fault(t, f.detail, f.context));
        lemma_refuses(r->Err_0, f.detail, f.context);
    }
    assert forall|d: Seq<char>, c: Seq<u8>| #[trigger] text_fault(t, d, c) implies (r matches Err(e)
        && refuses(e, d, c)) by {
        lemma_text_fault(t, d, c);
        lemma_refuses(r->Err_0, d, c);
    }
}

} // verus!

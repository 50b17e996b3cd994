//! Percent-encoding of raw bytes, and the error that malformed locator text gives.
//!
//! The bytes `[A-Za-z0-9._-]` stand for themselves; every other byte is `%` and two
//! upper-case hexadecimal digits. So the delimiters of a locator only ever occur in
//! its text as structure, never inside a value.

use vstd::prelude::*;
use vstd::string::StringExecFns;
use vstd::utf8::valid_utf8;

use crate::error::{head16, SmallHex, VfsError, VfsResult};
use crate::text::{all_ascii, hex_digit_upper, hex_pair, hex_upper, lacks, parse_hex_pair};

verus! {

broadcast use vstd::seq::group_seq_axioms;

/// What is wrong with a text, and the piece of it that shows so.
pub struct Fault {
    pub detail: Seq<char>,
    pub context: Seq<u8>,
}

/// `e` reports the fault: the detail, and the first bytes of the context.
pub open spec fn reports(e: VfsError, fault: Fault) -> bool {
    match e {
        VfsError::Decode { layer, offset, detail, bytes } => {
            &&& layer@ == "pathspec-uri"@
            &&& offset == 0
            &&& detail@ == fault.detail
            &&& bytes@ == head16(fault.context)
        },
        _ => false,
    }
}

/// The error for malformed locator text.
pub fn fault(detail: &'static str, context: &[u8]) -> (e: VfsError)
    ensures
        reports(e, (Fault { detail: detail@, context: context@ })),
{
    VfsError::Decode {
        layer: "pathspec-uri",
        offset: 0,
        detail: String::from_str(detail),
        bytes: SmallHex::new(context),
    }
}

/// A byte that stands for itself.
pub open spec fn unreserved(b: u8) -> bool {
    ||| 'a' as u8 <= b <= 'z' as u8
    ||| 'A' as u8 <= b <= 'Z' as u8
    ||| '0' as u8 <= b <= '9' as u8
    ||| b == '.' as u8
    ||| b == '_' as u8
    ||| b == '-' as u8
}

/// One byte, encoded.
pub open spec fn encoded_byte(b: u8) -> Seq<u8> {
    if unreserved(b) {
        seq![b]
    } else {
        seq!['%' as u8, hex_upper(b / 16), hex_upper(b % 16)]
    }
}

/// Every byte, encoded.
pub open spec fn encoded(s: Seq<u8>) -> Seq<u8>
    decreases s.len(),
{
    if s.len() == 0 {
        Seq::empty()
    } else {
        encoded(s.drop_last()) + encoded_byte(s.last())
    }
}

/// A value in front of what was already decoded.
pub open spec fn prepend(b: u8, rest: Result<Seq<u8>, Seq<char>>) -> Result<Seq<u8>, Seq<char>> {
    match rest {
        Ok(s) => Ok(seq![b] + s),
        Err(e) => Err(e),
    }
}

/// The bytes that `t` encodes, or the detail of the first malformed escape.
pub open spec fn decoded(t: Seq<u8>) -> Result<Seq<u8>, Seq<char>>
    decreases t.len(),
{
    if t.len() == 0 {
        Ok(Seq::empty())
    } else if t[0] != '%' as u8 {
        prepend(t[0], decoded(t.skip(1)))
    } else if t.len() < 3 {
        Err("truncated percent escape"@)
    } else if !valid_utf8(seq![t[1], t[2]]) {
        Err("non-ascii percent escape"@)
    } else {
        match hex_pair(t[1], t[2]) {
            None => Err("bad percent hex"@),
            Some(b) => prepend(b, decoded(t.skip(3))),
        }
    }
}

/// The bytes that `t` encodes, or the fault with the whole of `t` as its context.
pub open spec fn decoded_or_fault(t: Seq<u8>) -> Result<Seq<u8>, Fault> {
    match decoded(t) {
        Ok(s) => Ok(s),
        Err(detail) => Err(Fault { detail, context: t }),
    }
}

/// Encoded text holds unreserved bytes and percent signs only, so it is ASCII and
/// none of the delimiters `| : , /` occurs in it.
pub proof fn encoding_leaks_no_delimiter(s: Seq<u8>)
    ensures
        forall|i: int|
            0 <= i < encoded(s).len() ==> unreserved(#[trigger] encoded(s)[i]) || encoded(s)[i]
                == '%' as u8,
        all_ascii(encoded(s)),
        lacks(encoded(s), '|' as u8),
        lacks(encoded(s), ':' as u8),
        lacks(encoded(s), ',' as u8),
        lacks(encoded(s), '/' as u8),
    decreases s.len(),
{
    if s.len() > 0 {
        encoding_leaks_no_delimiter(s.drop_last());
        let head = encoded(s.drop_last());
        let tail = encoded_byte(s.last());
        assert forall|i: int| 0 <= i < encoded(s).len() implies unreserved(
            #[trigger] encoded(s)[i],
        ) || encoded(s)[i] == '%' as u8 by {
            if i < head.len() {
                assert(encoded(s)[i] == head[i]);
            } else {
                assert(encoded(s)[i] == tail[i - head.len()]);
            }
        }
    }
    assert forall|i: int| 0 <= i < encoded(s).len() implies ({
        let b = #[trigger] encoded(s)[i];
        b < 128 && b != '|' as u8 && b != ':' as u8 && b != ',' as u8 && b != '/' as u8
    }) by {}
}

proof fn lemma_encoded_first(s: Seq<u8>)
    requires
        s.len() > 0,
    ensures
        encoded(s) == encoded_byte(s[0]) + encoded(s.skip(1)),
    decreases s.len(),
{
    if s.len() == 1 {
        assert(s.drop_last() =~= Seq::<u8>::empty());
        assert(s.skip(1) =~= Seq::<u8>::empty());
        assert(encoded(s) =~= encoded_byte(s[0]) + encoded(s.skip(1)));
    } else {
        lemma_encoded_first(s.drop_last());
        assert(s.drop_last().skip(1) =~= s.skip(1).drop_last());
        assert(encoded(s) =~= encoded_byte(s[0]) + encoded(s.skip(1)));
    }
}

pub(crate) proof fn lemma_two_ascii_bytes(a: u8, b: u8)
    requires
        a < 128,
        b < 128,
    ensures
        valid_utf8(seq![a, b]),
{
    crate::text::lemma_ascii_decodes(seq![a, b]);
}

/// Decoding undoes encoding, for every byte string.
pub proof fn decoding_undoes_encoding(s: Seq<u8>)
    ensures
        decoded(encoded(s)) == Ok::<Seq<u8>, Seq<char>>(s),
    decreases s.len(),
{
    if s.len() == 0 {
        assert(s =~= Seq::<u8>::empty());
    } else {
        lemma_encoded_first(s);
        decoding_undoes_encoding(s.skip(1));
        let b = s[0];
        let t = encoded(s);
        assert(seq![b] + s.skip(1) =~= s);
        if unreserved(b) {
            assert(t.skip(1) =~= encoded(s.skip(1)));
        } else {
            assert(t[0] == '%' as u8);
            assert(t[1] == hex_upper(b / 16) && t[2] == hex_upper(b % 16));
            crate::text::lemma_hex_pair_of_byte(b);
            lemma_two_ascii_bytes(t[1], t[2]);
            assert(t.skip(3) =~= encoded(s.skip(1)));
        }
    }
}

/// Two hexadecimal digits follow every percent sign.
pub open spec fn whole_escapes(t: Seq<u8>) -> bool {
    forall|i: int|
        0 <= i < t.len() && #[trigger] t[i] == '%' as u8 ==> i + 2 < t.len() && hex_pair(
            t[i + 1],
            t[i + 2],
        ) is Some
}

proof fn lemma_whole_escapes_skip(t: Seq<u8>, k: int)
    requires
        0 <= k <= t.len(),
        whole_escapes(t),
    ensures
        whole_escapes(t.skip(k)),
{
    assert forall|i: int| 0 <= i < t.skip(k).len() && #[trigger] t.skip(k)[i]
        == '%' as u8 implies i + 2 < t.skip(k).len() && hex_pair(
        t.skip(k)[i + 1],
        t.skip(k)[i + 2],
    ) is Some by {
        assert(t[i + k] == '%' as u8);
    }
}

proof fn lemma_whole_escapes_extend(t: Seq<u8>, k: int)
    requires
        0 <= k <= t.len(),
        whole_escapes(t.skip(k)),
        forall|i: int|
            0 <= i < k && #[trigger] t[i] == '%' as u8 ==> i + 2 < t.len() && hex_pair(
                t[i + 1],
                t[i + 2],
            ) is Some,
    ensures
        whole_escapes(t),
{
    assert forall|i: int| 0 <= i < t.len() && #[trigger] t[i] == '%' as u8 implies i + 2 < t.len()
        && hex_pair(t[i + 1], t[i + 2]) is Some by {
        if i >= k {
            assert(t.skip(k)[i - k] == '%' as u8);
        }
    }
}

/// A text decodes exactly when two hexadecimal digits follow each of its percent signs.
pub proof fn text_decodes_exactly_when_its_escapes_are_whole(t: Seq<u8>)
    ensures
        decoded(t) is Ok <==> whole_escapes(t),
    decreases t.len(),
{
    if t.len() > 0 {
        let step: int = if t[0] == '%' as u8 {
            3
        } else {
            1
        };
        if t[0] == '%' as u8 && t.len() >= 3 && hex_pair(t[1], t[2]) is Some {
            lemma_two_ascii_bytes(t[1], t[2]);
        }
        if step <= t.len() && (step == 1 || hex_pair(t[1], t[2]) is Some) {
            text_decodes_exactly_when_its_escapes_are_whole(t.skip(step));
            if whole_escapes(t) {
                lemma_whole_escapes_skip(t, step);
            }
            if whole_escapes(t.skip(step)) {
                lemma_whole_escapes_extend(t, step);
            }
        }
    }
}

/// Append the bytes, percent-encoded.
pub fn pct_encode(out: &mut Vec<u8>, bytes: &[u8])
    ensures
        final(out)@ == old(out)@ + encoded(bytes@),
{
    let mut i: usize = 0;
    while i < bytes.len()
        invariant
            0 <= i <= bytes.len(),
            out@ == old(out)@ + encoded(bytes@.take(i as int)),
        decreases bytes.len() - i,
    {
        let b: u8 = bytes[i];
        let ghost before = out@;
        let letter = (0x61 <= b && b <= 0x7a) || (0x41 <= b && b <= 0x5a);
        if letter || (0x30 <= b && b <= 0x39) || b == 0x2e || b == 0x5f || b == 0x2d {
            out.push(b);
        } else {
            out.push(0x25);
            out.push(hex_digit_upper(b / 16));
            out.push(hex_digit_upper(b % 16));
        }
        assert(out@ =~= before + encoded_byte(b));
        i = i + 1;
        assert(bytes@.take(i as int).drop_last() =~= bytes@.take(i - 1));
        assert(out@ =~= old(out)@ + encoded(bytes@.take(i as int)));
    }
    assert(bytes@.take(bytes.len() as int) =~= bytes@);
}

fn valid_pair(a: u8, b: u8) -> (r: bool)
    ensures
        r == valid_utf8(seq![a, b]),
{
    let r = (a < 0x80 && b < 0x80) || (0xc2 <= a && a <= 0xdf && 0x80 <= b && b <= 0xbf);
    proof {
        let s = seq![a, b];
        reveal_with_fuel(valid_utf8, 3);
        let t = vstd::utf8::pop_first_scalar(s);
        if a < 0x80 {
            assert((a & 0x7f) as u32 == a as u32) by (bit_vector)
                requires
                    a < 0x80u8,
            ;
            assert(t =~= seq![b]);
            if b < 0x80 {
                lemma_two_ascii_bytes(a, b);
            } else {
                assert(!vstd::utf8::valid_first_scalar(t));
            }
        } else if 0xc0 <= a && a <= 0xdf && 0x80 <= b && b <= 0xbf {
            let c = vstd::utf8::codepoint_width_2(a, b);
            assert(c == (((a & 0x1f) as u32) << 6) | ((b & 0x3f) as u32));
            assert(((((a & 0x1f) as u32) << 6) | ((b & 0x3f) as u32)) < 0x800u32) by (bit_vector);
            assert(((((a & 0x1f) as u32) << 6) | ((b & 0x3f) as u32)) >= 0x80u32 <==> a
                >= 0xc2u8) by (bit_vector)
                requires
                    0xc0u8 <= a <= 0xdfu8,
            ;
            assert(t =~= Seq::<u8>::empty());
        } else {
            assert(!vstd::utf8::valid_leading_and_continuation_bytes_first_codepoint(s));
        }
    }
    r
}

/// What decoding gives once the first bytes are decoded.
spec fn resumed(done: Seq<u8>, rest: Result<Seq<u8>, Seq<char>>) -> Result<Seq<u8>, Seq<char>> {
    match rest {
        Ok(s) => Ok(done + s),
        Err(e) => Err(e),
    }
}

/// The bytes that the text encodes.
pub fn pct_decode(t: &[u8]) -> (r: VfsResult<Vec<u8>>)
    ensures
        match decoded_or_fault(t@) {
            Ok(s) => r matches Ok(v) && v@ == s,
            Err(f) => r matches Err(e) && reports(e, f),
        },
{
    let mut out: Vec<u8> = Vec::new();
    let mut i: usize = 0;
    assert(t@.skip(0) =~= t@);
    while i < t.len()
        invariant
            0 <= i <= t.len(),
            decoded(t@) == resumed(out@, decoded(t@.skip(i as int))),
        decreases t.len() - i,
    {
        let c: u8 = t[i];
        let ghost here = t@.skip(i as int);
        assert(here[0] == c);
        if c == 0x25 {
            if t.len() - i < 3 {
                return Err(fault("truncated percent escape", t));
            }
            let hi: u8 = t[i + 1];
            let lo: u8 = t[i + 2];
            assert(here[1] == hi && here[2] == lo);
            if !valid_pair(hi, lo) {
                return Err(fault("non-ascii percent escape", t));
            }
            match parse_hex_pair(hi, lo) {
                None => {
                    return Err(fault("bad percent hex", t));
                },
                Some(b) => {
                    let ghost done = out@;
                    out.push(b);
                    i = i + 3;
                    assert(here.skip(3) =~= t@.skip(i as int));
                    proof {
                        lemma_resumed(done, b, decoded(t@.skip(i as int)));
                    }
                },
            }
        } else {
            let ghost done = out@;
            out.push(c);
            i = i + 1;
            assert(here.skip(1) =~= t@.skip(i as int));
            proof {
                lemma_resumed(done, c, decoded(t@.skip(i as int)));
            }
        }
    }
    assert(t@.skip(t.len() as int) =~= Seq::<u8>::empty());
    assert(out@ + Seq::<u8>::empty() =~= out@);
    Ok(out)
}

proof fn lemma_resumed(done: Seq<u8>, b: u8, rest: Result<Seq<u8>, Seq<char>>)
    ensures
        resumed(done, prepend(b, rest)) == resumed(done.push(b), rest),
{
    if rest is Ok {
        assert(done + (seq![b] + rest->Ok_0) =~= done.push(b) + rest->Ok_0);
    }
}

} // verus!

//! Bytes and text: ASCII literals, decimal and hexadecimal numbers, splitting at
//! a delimiter and percent-encoding, each with the mathematical statement of it.

use vstd::prelude::*;
use vstd::slice::slice_subrange;
use vstd::utf8::{decode_utf8, encode_utf8, is_ascii_chars, valid_utf8};

verus! {

broadcast use vstd::seq::group_seq_axioms;

// ---------------------------------------------------------------------------
// ASCII
// ---------------------------------------------------------------------------

/// The bytes of an ASCII text.
pub open spec fn ascii(s: Seq<char>) -> Seq<u8> {
    Seq::new(s.len(), |i: int| s[i] as u8)
}

/// The characters that ASCII bytes stand for.
pub open spec fn chars(b: Seq<u8>) -> Seq<char> {
    Seq::new(b.len(), |i: int| b[i] as char)
}

/// Every byte is an ASCII byte.
pub open spec fn all_ascii(b: Seq<u8>) -> bool {
    forall|i: int| 0 <= i < b.len() ==> #[trigger] b[i] < 128
}

/// The bytes of an ASCII literal.
pub fn literal(s: &'static str) -> (r: &'static [u8])
    requires
        is_ascii_chars(s@),
    ensures
        r@ == ascii(s@),
        all_ascii(r@),
{
    proof {
        vstd::utf8::is_ascii_chars_encode_utf8(s@);
    }
    let b = s.as_bytes();
    assert(b@ =~= ascii(s@));
    b
}

/// `String::from_utf8`: the text that `bytes` encode, or nothing when they are not
/// valid UTF-8.
#[verifier::external_body]
pub(crate) fn string_from_utf8(bytes: Vec<u8>) -> (r: Option<String>)
    ensures
        r is Some <==> valid_utf8(bytes@),
        r matches Some(s) ==> s@ == decode_utf8(bytes@),
{
    String::from_utf8(bytes).ok()
}

/// ASCII bytes are the encoding of the characters that they stand for.
pub proof fn lemma_ascii_decodes(b: Seq<u8>)
    requires
        all_ascii(b),
    ensures
        valid_utf8(b),
        decode_utf8(b) == chars(b),
        encode_utf8(chars(b)) == b,
        ascii(chars(b)) == b,
        is_ascii_chars(chars(b)),
{
    let c = chars(b);
    assert(is_ascii_chars(c)) by {
        assert forall|i: int| 0 <= i < c.len() implies '\0' <= #[trigger] c[i] <= '\u{7f}' by {
            assert(b[i] < 128);
        }
    }
    vstd::utf8::is_ascii_chars_encode_utf8(c);
    assert(ascii(c) =~= b);
    assert(encode_utf8(c) =~= b);
    vstd::utf8::encode_utf8_valid_utf8(c);
    vstd::utf8::encode_utf8_decode_utf8(c);
}

/// An ASCII byte string as text.
pub fn ascii_string(bytes: Vec<u8>) -> (r: String)
    requires
        all_ascii(bytes@),
    ensures
        r@ == chars(bytes@),
        encode_utf8(r@) == bytes@,
{
    proof {
        lemma_ascii_decodes(bytes@);
    }
    match string_from_utf8(bytes) {
        Some(s) => s,
        None => String::new(),
    }
}

/// True when the two byte strings are equal.
pub fn same_bytes(a: &[u8], b: &[u8]) -> (r: bool)
    ensures
        r == (a@ == b@),
{
    if a.len() != b.len() {
        return false;
    }
    let mut i: usize = 0;
    while i < a.len()
        invariant
            0 <= i <= a.len(),
            a.len() == b.len(),
            forall|k: int| 0 <= k < i ==> a@[k] == b@[k],
        decreases a.len() - i,
    {
        if a[i] != b[i] {
            return false;
        }
        i = i + 1;
    }
    assert(a@ =~= b@);
    true
}

/// A copy of the bytes.
pub fn bytes_to_vec(a: &[u8]) -> (r: Vec<u8>)
    ensures
        r@ == a@,
{
    let mut out: Vec<u8> = Vec::new();
    push_bytes(&mut out, a);
    assert(out@ =~= a@);
    out
}

/// Append the bytes.
pub fn push_bytes(out: &mut Vec<u8>, a: &[u8])
    ensures
        final(out)@ == old(out)@ + a@,
{
    let mut i: usize = 0;
    while i < a.len()
        invariant
            0 <= i <= a.len(),
            out@ == old(out)@ + a@.take(i as int),
        decreases a.len() - i,
    {
        out.push(a[i]);
        i = i + 1;
        assert(a@.take(i as int) =~= a@.take(i - 1).push(a@[i - 1]));
        assert(out@ =~= old(out)@ + a@.take(i as int));
    }
    assert(a@.take(a.len() as int) =~= a@);
}

// ---------------------------------------------------------------------------
// Decimal numbers
// ---------------------------------------------------------------------------

/// The decimal digits of `n`, most significant first.
pub open spec fn decimal(n: nat) -> Seq<u8>
    decreases n,
{
    if n < 10 {
        seq![(48 + n) as u8]
    } else {
        decimal(n / 10).push((48 + n % 10) as u8)
    }
}

/// A decimal digit.
pub open spec fn is_digit(b: u8) -> bool {
    48 <= b <= 57
}

/// Decimal digits only.
pub open spec fn all_digits(s: Seq<u8>) -> bool {
    forall|i: int| 0 <= i < s.len() ==> is_digit(#[trigger] s[i])
}

/// The number that a string of digits stands for.
pub open spec fn digits_value(s: Seq<u8>) -> nat
    decreases s.len(),
{
    if s.len() == 0 {
        0
    } else {
        digits_value(s.drop_last()) * 10 + (s.last() - 48) as nat
    }
}

/// What follows an optional plus sign.
pub open spec fn after_plus(s: Seq<u8>) -> Seq<u8> {
    if s.len() > 0 && s[0] == '+' as u8 {
        s.skip(1)
    } else {
        s
    }
}

/// The unsigned number that `s` writes in decimal, when it writes one that is at
/// most `max`: an optional plus sign, one or more digits, and nothing else.
pub open spec fn unsigned(s: Seq<u8>, max: nat) -> Option<nat> {
    let d = after_plus(s);
    if d.len() > 0 && all_digits(d) && digits_value(d) <= max {
        Some(digits_value(d))
    } else {
        None
    }
}

/// The digits of a number read back as that number.
pub proof fn lemma_decimal(n: nat)
    ensures
        decimal(n).len() > 0,
        all_digits(decimal(n)),
        digits_value(decimal(n)) == n,
    decreases n,
{
    if n < 10 {
        let s = decimal(n);
        assert(s.drop_last() =~= Seq::<u8>::empty());
        assert(digits_value(s.drop_last()) == 0);
    } else {
        lemma_decimal(n / 10);
        let s = decimal(n);
        assert(s.drop_last() =~= decimal(n / 10));
    }
}

/// A written number reads back: `unsigned` undoes `decimal` up to the bound.
pub proof fn lemma_unsigned_of_decimal(n: nat, max: nat)
    requires
        n <= max,
    ensures
        unsigned(decimal(n), max) == Some(n),
{
    lemma_decimal(n);
    assert(is_digit(decimal(n)[0]));
    assert(after_plus(decimal(n)) == decimal(n));
}

proof fn lemma_digits_value_grows(s: Seq<u8>, i: int)
    requires
        0 <= i <= s.len(),
        all_digits(s),
    ensures
        digits_value(s.take(i)) <= digits_value(s),
    decreases s.len() - i,
{
    if i < s.len() {
        lemma_digits_value_grows(s, i + 1);
        assert(s.take(i + 1).drop_last() =~= s.take(i));
        assert(is_digit(s[i]));
    } else {
        assert(s.take(i) =~= s);
    }
}

/// Append `n` in decimal.
pub fn push_decimal(out: &mut Vec<u8>, n: u64)
    ensures
        final(out)@ == old(out)@ + decimal(n as nat),
    decreases n,
{
    if n >= 10 {
        push_decimal(out, n / 10);
    }
    let digit: u8 = 48 + (n % 10) as u8;
    out.push(digit);
    proof {
        assert(out@ =~= old(out)@ + decimal(n as nat));
    }
}

/// Read an unsigned decimal number that is at most `max`.
pub fn parse_unsigned(s: &[u8], max: u64) -> (r: Option<u64>)
    ensures
        match r {
            Some(v) => unsigned(s@, max as nat) == Some(v as nat),
            None => unsigned(s@, max as nat) is None,
        },
{
    let mut start: usize = 0;
    if s.len() > 0 && s[0] == 0x2b {
        start = 1;
    }
    let ghost d = after_plus(s@);
    assert(d =~= s@.skip(start as int));
    if start >= s.len() {
        return None;
    }
    let mut i: usize = start;
    let mut value: u64 = 0;
    while i < s.len()
        invariant
            start <= i <= s.len(),
            d == s@.skip(start as int),
            d == after_plus(s@),
            value <= max,
            all_digits(d.take(i - start)),
            value == digits_value(d.take(i - start)),
        decreases s.len() - i,
    {
        let b: u8 = s[i];
        let ghost k = i - start;
        assert(d[k] == b);
        if b < 48 || b > 57 {
            assert(!is_digit(d[k]));
            return None;
        }
        let digit: u64 = (b - 48) as u64;
        let next: u128 = value as u128 * 10 + digit as u128;
        proof {
            assert(d.take(k + 1).drop_last() =~= d.take(k));
            assert(digits_value(d.take(k + 1)) == next);
            if all_digits(d) {
                lemma_digits_value_grows(d, k + 1);
            }
        }
        if next > max as u128 {
            return None;
        }
        value = next as u64;
        i = i + 1;
        proof {
            assert forall|j: int| 0 <= j < d.take(k + 1).len() implies is_digit(
                #[trigger] d.take(k + 1)[j],
            ) by {
                if j < k {
                    assert(d.take(k)[j] == d.take(k + 1)[j]);
                }
            }
        }
    }
    assert(d.take(d.len() as int) =~= d);
    Some(value)
}

// ---------------------------------------------------------------------------
// Hexadecimal numbers
// ---------------------------------------------------------------------------

/// The lower-case hexadecimal digit of `n`.
pub open spec fn hex_lower(n: u8) -> u8 {
    if n < 10 {
        (48 + n) as u8
    } else {
        (87 + n) as u8
    }
}

/// The upper-case hexadecimal digit of `n`.
pub open spec fn hex_upper(n: u8) -> u8 {
    if n < 10 {
        (48 + n) as u8
    } else {
        (55 + n) as u8
    }
}

/// The value of a hexadecimal digit of either case.
pub open spec fn hex_value(b: u8) -> Option<int> {
    if 48 <= b <= 57 {
        Some(b - 48)
    } else if 97 <= b <= 102 {
        Some(b - 87)
    } else if 65 <= b <= 70 {
        Some(b - 55)
    } else {
        None
    }
}

/// The byte that two hexadecimal digits write.
pub open spec fn hex_pair(a: u8, b: u8) -> Option<u8> {
    match (hex_value(a), hex_value(b)) {
        (Some(hi), Some(lo)) => Some((hi * 16 + lo) as u8),
        _ => None,
    }
}

/// Each byte as two lower-case hexadecimal digits.
pub open spec fn hex_text(s: Seq<u8>) -> Seq<u8>
    decreases s.len(),
{
    if s.len() == 0 {
        Seq::empty()
    } else {
        hex_text(s.drop_last()) + seq![hex_lower(s.last() / 16), hex_lower(s.last() % 16)]
    }
}

/// The two digits at `2 * i` and `2 * i + 1` of the hexadecimal text write byte `i`.
pub proof fn lemma_hex_text(s: Seq<u8>)
    ensures
        hex_text(s).len() == 2 * s.len(),
        forall|i: int|
            0 <= i < s.len() ==> #[trigger] hex_text(s)[2 * i] == hex_lower(s[i] / 16)
                && hex_text(s)[2 * i + 1] == hex_lower(s[i] % 16),
    decreases s.len(),
{
    if s.len() > 0 {
        lemma_hex_text(s.drop_last());
        assert forall|i: int| 0 <= i < s.len() implies #[trigger] hex_text(s)[2 * i] == hex_lower(
            s[i] / 16,
        ) && hex_text(s)[2 * i + 1] == hex_lower(s[i] % 16) by {
            if i < s.len() - 1 {
                assert(hex_text(s.drop_last())[2 * i] == hex_lower(s.drop_last()[i] / 16));
            }
        }
    }
}

/// Hexadecimal text is ASCII.
pub proof fn lemma_hex_text_ascii(s: Seq<u8>)
    ensures
        all_ascii(hex_text(s)),
    decreases s.len(),
{
    if s.len() > 0 {
        lemma_hex_text_ascii(s.drop_last());
    }
}

/// Two lower-case digits of a byte read back as that byte.
pub proof fn lemma_hex_pair_of_byte(b: u8)
    ensures
        hex_pair(hex_lower(b / 16), hex_lower(b % 16)) == Some(b),
        hex_pair(hex_upper(b / 16), hex_upper(b % 16)) == Some(b),
        hex_lower(b / 16) < 128 && hex_lower(b % 16) < 128,
{
}

/// The lower-case hexadecimal digit of `n`.
pub fn hex_digit(n: u8) -> (r: u8)
    requires
        n < 16,
    ensures
        r == hex_lower(n),
{
    if n < 10 {
        48 + n
    } else {
        87 + n
    }
}

/// The upper-case hexadecimal digit of `n`.
pub fn hex_digit_upper(n: u8) -> (r: u8)
    requires
        n < 16,
    ensures
        r == hex_upper(n),
{
    if n < 10 {
        48 + n
    } else {
        55 + n
    }
}

/// Append one byte as two lower-case hexadecimal digits.
pub fn push_hex(out: &mut Vec<u8>, b: u8)
    ensures
        final(out)@ == old(out)@ + seq![hex_lower(b / 16), hex_lower(b % 16)],
{
    out.push(hex_digit(b / 16));
    out.push(hex_digit(b % 16));
    assert(out@ =~= old(out)@ + seq![hex_lower(b / 16), hex_lower(b % 16)]);
}

/// Append each byte as two lower-case hexadecimal digits.
pub fn push_hex_text(out: &mut Vec<u8>, s: &[u8])
    ensures
        final(out)@ == old(out)@ + hex_text(s@),
{
    let mut i: usize = 0;
    while i < s.len()
        invariant
            0 <= i <= s.len(),
            out@ == old(out)@ + hex_text(s@.take(i as int)),
        decreases s.len() - i,
    {
        push_hex(out, s[i]);
        i = i + 1;
        assert(s@.take(i as int).drop_last() =~= s@.take(i - 1));
        assert(out@ =~= old(out)@ + hex_text(s@.take(i as int)));
    }
    assert(s@.take(s.len() as int) =~= s@);
}

fn hex_digit_value(b: u8) -> (r: Option<u8>)
    ensures
        match r {
            Some(v) => hex_value(b) == Some(v as int) && v < 16,
            None => hex_value(b) is None,
        },
{
    if 48 <= b && b <= 57 {
        Some(b - 48)
    } else if 97 <= b && b <= 102 {
        Some(b - 87)
    } else if 65 <= b && b <= 70 {
        Some(b - 55)
    } else {
        None
    }
}

/// Read two hexadecimal digits as a byte.
pub fn parse_hex_pair(a: u8, b: u8) -> (r: Option<u8>)
    ensures
        r == hex_pair(a, b),
{
    match (hex_digit_value(a), hex_digit_value(b)) {
        (Some(hi), Some(lo)) => Some(hi * 16 + lo),
        _ => None,
    }
}

// ---------------------------------------------------------------------------
// Splitting
// ---------------------------------------------------------------------------

/// The position of the first `b` in `s`, or the length of `s` when it has none.
pub open spec fn find(s: Seq<u8>, b: u8) -> int
    decreases s.len(),
{
    if s.len() == 0 || s[0] == b {
        0
    } else {
        1 + find(s.skip(1), b)
    }
}

/// What stands before and after the first `b` in `s`.
pub open spec fn split_once(s: Seq<u8>, b: u8) -> Option<(Seq<u8>, Seq<u8>)> {
    let i = find(s, b);
    if i < s.len() {
        Some((s.take(i), s.skip(i + 1)))
    } else {
        None
    }
}

/// The pieces of `s` between the occurrences of `b`: always at least one.
pub open spec fn split(s: Seq<u8>, b: u8) -> Seq<Seq<u8>>
    decreases s.len(),
{
    let i = find(s, b);
    if 0 <= i < s.len() {
        seq![s.take(i)] + split(s.skip(i + 1), b)
    } else {
        seq![s]
    }
}

/// No byte of `s` is `b`.
pub open spec fn lacks(s: Seq<u8>, b: u8) -> bool {
    forall|i: int| 0 <= i < s.len() ==> #[trigger] s[i] != b
}

/// The first `b` of `s` is where `find` says, and nothing before it is `b`.
pub proof fn lemma_find(s: Seq<u8>, b: u8)
    ensures
        0 <= find(s, b) <= s.len(),
        find(s, b) < s.len() ==> s[find(s, b)] == b,
        lacks(s.take(find(s, b)), b),
    decreases s.len(),
{
    if s.len() > 0 && s[0] != b {
        lemma_find(s.skip(1), b);
        let i = find(s.skip(1), b);
        assert forall|k: int| 0 <= k < i + 1 implies #[trigger] s.take(i + 1)[k] != b by {
            if k > 0 {
                assert(s.skip(1).take(i)[k - 1] != b);
            }
        }
    }
}

/// A position of `b` with none before it is the one that `find` gives.
pub proof fn lemma_find_is(s: Seq<u8>, b: u8, i: int)
    requires
        0 <= i <= s.len(),
        lacks(s.take(i), b),
        i < s.len() ==> s[i] == b,
    ensures
        find(s, b) == i,
    decreases s.len(),
{
    if i > 0 {
        assert(s.take(i)[0] != b);
        assert forall|k: int| 0 <= k < i - 1 implies #[trigger] s.skip(1).take(i - 1)[k] != b by {
            assert(s.take(i)[k + 1] != b);
        }
        lemma_find_is(s.skip(1), b, i - 1);
    }
}

/// Text without the delimiter is one piece.
pub proof fn lemma_split_one(s: Seq<u8>, b: u8)
    requires
        lacks(s, b),
    ensures
        split_once(s, b) is None,
        split(s, b) == seq![s],
{
    assert(s.take(s.len() as int) =~= s);
    lemma_find_is(s, b, s.len() as int);
}

/// A piece without the delimiter, then the delimiter, splits off.
pub proof fn lemma_split_first(p: Seq<u8>, b: u8, rest: Seq<u8>)
    requires
        lacks(p, b),
    ensures
        split_once(p.push(b) + rest, b) == Some((p, rest)),
        split(p.push(b) + rest, b) == seq![p] + split(rest, b),
{
    let s = p.push(b) + rest;
    assert(s.take(p.len() as int) =~= p);
    lemma_find_is(s, b, p.len() as int);
    assert(s.skip((p.len() + 1) as int) =~= rest);
}

/// The position of the first `b`.
pub fn find_byte(s: &[u8], b: u8) -> (r: usize)
    ensures
        r == find(s@, b),
        r <= s.len(),
{
    let mut i: usize = 0;
    while i < s.len() && s[i] != b
        invariant
            0 <= i <= s.len(),
            lacks(s@.take(i as int), b),
        decreases s.len() - i,
    {
        i = i + 1;
        assert forall|k: int| 0 <= k < i implies #[trigger] s@.take(i as int)[k] != b by {
            if k < i - 1 {
                assert(s@.take(i - 1)[k] != b);
            }
        }
    }
    proof {
        lemma_find_is(s@, b, i as int);
    }
    i
}

/// What stands before and after the first `b`.
pub fn split_once_at<'a>(s: &'a [u8], b: u8) -> (r: Option<(&'a [u8], &'a [u8])>)
    ensures
        match r {
            Some((x, y)) => split_once(s@, b) == Some((x@, y@)),
            None => split_once(s@, b) is None,
        },
{
    let i: usize = find_byte(s, b);
    if i < s.len() {
        let x = slice_subrange(s, 0, i);
        let y = slice_subrange(s, i + 1, s.len());
        assert(x@ =~= s@.take(i as int));
        assert(y@ =~= s@.skip(i + 1));
        Some((x, y))
    } else {
        None
    }
}

/// The first piece of `s` and what follows its delimiter, if one follows.
pub fn split_first<'a>(s: &'a [u8], b: u8) -> (r: (&'a [u8], Option<&'a [u8]>))
    ensures
        split(s@, b) == seq![r.0@] + match r.1 {
            Some(rest) => split(rest@, b),
            None => Seq::empty(),
        },
        r.1 matches Some(rest) ==> rest@.len() < s@.len(),
        split(s@, b)[0] == r.0@,
{
    proof {
        lemma_find(s@, b);
    }
    match split_once_at(s, b) {
        Some((x, y)) => (x, Some(y)),
        None => {
            assert(seq![s@] + Seq::<Seq<u8>>::empty() =~= seq![s@]);
            (s, None)
        },
    }
}

// ---------------------------------------------------------------------------
// Joining
// ---------------------------------------------------------------------------

/// The pieces with the delimiter between any two.
pub open spec fn joined(parts: Seq<Seq<u8>>, b: u8) -> Seq<u8>
    decreases parts.len(),
{
    if parts.len() == 0 {
        Seq::empty()
    } else if parts.len() == 1 {
        parts[0]
    } else {
        parts[0].push(b) + joined(parts.skip(1), b)
    }
}

/// One more piece at the end.
pub proof fn lemma_joined_push(parts: Seq<Seq<u8>>, b: u8, p: Seq<u8>)
    requires
        parts.len() > 0,
    ensures
        joined(parts.push(p), b) == joined(parts, b).push(b) + p,
    decreases parts.len(),
{
    let all = parts.push(p);
    assert(all.skip(1) =~= parts.skip(1).push(p));
    if parts.len() == 1 {
        assert(all.skip(1) =~= seq![p]);
        assert(joined(all.skip(1), b) == p);
    } else {
        lemma_joined_push(parts.skip(1), b, p);
        assert(joined(all, b) =~= joined(parts, b).push(b) + p);
    }
}

/// Splitting undoes joining, where no piece holds the delimiter.
pub proof fn splitting_undoes_joining(parts: Seq<Seq<u8>>, b: u8)
    requires
        parts.len() > 0,
        forall|i: int| 0 <= i < parts.len() ==> lacks(#[trigger] parts[i], b),
    ensures
        split(joined(parts, b), b) == parts,
    decreases parts.len(),
{
    assert(lacks(parts[0], b));
    if parts.len() == 1 {
        lemma_split_one(parts[0], b);
        assert(parts =~= seq![parts[0]]);
    } else {
        let rest = parts.skip(1);
        assert forall|i: int| 0 <= i < rest.len() implies lacks(#[trigger] rest[i], b) by {
            assert(rest[i] == parts[i + 1]);
        }
        splitting_undoes_joining(rest, b);
        lemma_split_first(parts[0], b, joined(rest, b));
        assert(seq![parts[0]] + rest =~= parts);
    }
}

} // verus!

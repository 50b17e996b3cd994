//! The one error type of the whole stack.
//!
//! Every failure is a typed value with enough context to diagnose it: the
//! offending bytes ([`SmallHex`]), the offset and the layer. A prerequisite that
//! fails is loud ([`VfsError::Bootstrap`], [`VfsError::Decode`]), never an empty
//! result.

use vstd::prelude::*;
use vstd::slice::slice_subrange;
use vstd::string::StringExecFns;

use crate::text::{
    all_ascii, ascii_string, chars, decimal, hex_lower, hex_text, push_decimal, push_hex,
    push_hex_text,
};

verus! {

broadcast use vstd::seq::group_seq_axioms;

/// `std::io::Error`, carried through as it is.
#[verifier::external_type_specification]
#[verifier::external_body]
pub struct ExIoError(std::io::Error);

/// A short, inline snapshot of offending bytes, capped so that a hostile stream
/// cannot make an error message unbounded.
#[derive(Clone, Copy, Debug, PartialEq, Eq)]
pub struct SmallHex {
    buf: [u8; 16],
    len: u8,
}

impl View for SmallHex {
    type V = Seq<u8>;

    closed spec fn view(&self) -> Seq<u8> {
        if self.len <= 16 {
            self.buf@.take(self.len as int)
        } else {
            Seq::empty()
        }
    }
}

/// The first bytes of `s`, as many as a [`SmallHex`] holds.
pub open spec fn head16(s: Seq<u8>) -> Seq<u8> {
    if s.len() <= 16 {
        s
    } else {
        s.take(16)
    }
}

/// Pairs of hexadecimal digits with a space between two pairs.
pub open spec fn spaced_hex(s: Seq<u8>) -> Seq<u8>
    decreases s.len(),
{
    if s.len() == 0 {
        Seq::empty()
    } else {
        let pair = seq![hex_lower(s.last() / 16), hex_lower(s.last() % 16)];
        if s.len() == 1 {
            pair
        } else {
            spaced_hex(s.drop_last()).push(' ' as u8) + pair
        }
    }
}

impl SmallHex {
    /// Maximum captured bytes; enough to identify a signature.
    pub const CAP: usize = 16;

    /// Zeros follow the captured bytes, so that the bytes alone decide the value. Every
    /// capture is such a value.
    pub closed spec fn padded(&self) -> bool {
        &&& self.len <= 16
        &&& forall|k: int| self.len <= k < 16 ==> self.buf@[k] == 0
    }

    /// Capture up to [`SmallHex::CAP`] bytes; of a longer slice the prefix, which is
    /// what identifies a signature.
    pub fn new(bytes: &[u8]) -> (r: Self)
        ensures
            r@ == head16(bytes@),
            r.padded(),
    {
        let n: usize = if bytes.len() < 16 {
            bytes.len()
        } else {
            16
        };
        let mut buf: [u8; 16] = [0u8; 16];
        let mut i: usize = 0;
        while i < 16
            invariant
                0 <= i <= 16,
                n <= 16,
                n <= bytes.len(),
                buf@.len() == 16,
                forall|k: int| 0 <= k < i ==> buf@[k] == if k < n {
                    bytes@[k]
                } else {
                    0
                },
            decreases 16 - i,
        {
            buf[i] = if i < n {
                bytes[i]
            } else {
                0
            };
            i = i + 1;
        }
        let r = SmallHex { buf, len: n as u8 };
        assert(r@ =~= head16(bytes@));
        r
    }

    /// The captured bytes.
    pub fn as_bytes(&self) -> (r: &[u8])
        ensures
            r@ == self@,
    {
        let all: &[u8] = &self.buf;
        if self.len <= 16 {
            slice_subrange(all, 0, self.len as usize)
        } else {
            slice_subrange(all, 0, 0)
        }
    }

    /// True when nothing was captured.
    pub fn is_empty(&self) -> (r: bool)
        ensures
            r == (self@.len() == 0),
    {
        self.as_bytes().len() == 0
    }

    /// The bytes in hexadecimal, separated by spaces.
    pub fn to_string(&self) -> (r: String)
        ensures
            r@ == chars(spaced_hex(self@)),
    {
        let bytes = self.as_bytes();
        let mut out: Vec<u8> = Vec::new();
        let mut i: usize = 0;
        while i < bytes.len()
            invariant
                0 <= i <= bytes.len(),
                all_ascii(out@),
                out@ == spaced_hex(bytes@.take(i as int)),
            decreases bytes.len() - i,
        {
            if i > 0 {
                out.push(0x20);
            }
            push_hex(&mut out, bytes[i]);
            i = i + 1;
            assert(bytes@.take(i as int).drop_last() =~= bytes@.take(i - 1));
            assert(out@ =~= spaced_hex(bytes@.take(i as int)));
        }
        assert(bytes@.take(bytes.len() as int) =~= bytes@);
        ascii_string(out)
    }

    /// The diagnostic form: `SmallHex(` the digits `)`.
    pub fn debug_string(&self) -> (r: String)
        ensures
            r@ == "SmallHex("@ + chars(hex_text(self@)) + ")"@,
    {
        let mut digits: Vec<u8> = Vec::new();
        push_hex_text(&mut digits, self.as_bytes());
        proof {
            crate::text::lemma_hex_text_ascii(self@);
            assert(digits@ =~= hex_text(self@));
        }
        let mut s = String::from_str("SmallHex(");
        s.append(ascii_string(digits).as_str());
        s.append(")");
        s
    }
}

/// Two captures are the same value exactly when they hold the same bytes.
pub proof fn captures_are_equal_exactly_when_their_bytes_are(a: SmallHex, b: SmallHex)
    requires
        a.padded(),
        b.padded(),
    ensures
        a == b <==> a@ == b@,
{
    if a@ == b@ {
        assert(a@.len() == a.len && b@.len() == b.len);
        assert forall|k: int| 0 <= k < 16 implies a.buf@[k] == b.buf@[k] by {
            if k < a.len {
                assert(a@[k] == b@[k]);
            }
        }
        assert(a.buf@ =~= b.buf@);
        assert(a.buf =~= b.buf);
    }
}

/// Every fallible operation returns this.
#[derive(Debug)]
#[allow(inconsistent_fields)]
#[non_exhaustive]
pub enum VfsError {
    /// An OS or backing read failed. `op` names the operation.
    Io { op: &'static str, source: std::io::Error },
    /// A prober claimed this layer, then `open` failed to validate it. Carries the
    /// offending bytes.
    Decode { layer: &'static str, offset: u64, detail: String, bytes: SmallHex },
    /// No prober recognized this source.
    Unrecognized { at: &'static str, offset: u64, bytes: SmallHex },
    /// More than one prober claimed the source.
    Ambiguous { candidates: Vec<&'static str> },
    /// A prerequisite of every later step failed.
    Bootstrap { stage: &'static str, detail: String },
    /// A required decoder is not there.
    Unsupported { layer: &'static str, scheme: String },
    /// A depth, source or byte cap tripped.
    Budget { cap: &'static str, limit: u64 },
    /// An encryption layer needs credentials that were not supplied.
    NeedCredentials { scheme: &'static str, target: String },
    /// An offset or length past the addressable bound.
    OutOfRange { what: &'static str, offset: u64, len: u64, bound: u64 },
}

/// Convenience alias.
pub type VfsResult<T> = Result<T, VfsError>;

/// The function that wraps an I/O error with the operation's label.
pub fn io_err(op: &'static str) -> (f: impl Fn(std::io::Error) -> VfsError)
    ensures
        forall|e: std::io::Error| call_requires(f, (e,)),
        forall|e: std::io::Error, r: VfsError|
            call_ensures(f, (e,), r) ==> r == (VfsError::Io { op, source: e }),
{
    move |source: std::io::Error| -> (r: VfsError)
        ensures
            r == (VfsError::Io { op, source }),
        { VfsError::Io { op, source } }
}

/// What `{:?}` writes for a text: it in quotes, with its special characters escaped.
pub uninterp spec fn debug_text(s: Seq<char>) -> Seq<char>;

/// `format!("{:?}", s)`: the text in quotes with its special characters escaped,
/// named [`debug_text`].
#[verifier::external_body]
fn quoted(s: &str) -> (r: String)
    ensures
        r@ == debug_text(s@),
{
    format!("{:?}", s)
}

/// `format!("{}", e)` of an I/O error. The system's own messages differ from one
/// machine to another, so nothing is stated of the text.
#[verifier::external_body]
fn io_error_text(e: &std::io::Error) -> (r: String) {
    format!("{}", e)
}

/// A number in decimal, as text.
pub open spec fn number(n: u64) -> Seq<char> {
    chars(decimal(n as nat))
}

pub(crate) fn number_text(n: u64) -> (r: String)
    ensures
        r@ == number(n),
{
    let mut digits: Vec<u8> = Vec::new();
    push_decimal(&mut digits, n);
    proof {
        crate::text::lemma_decimal(n as nat);
        assert(digits@ =~= decimal(n as nat));
        assert(all_ascii(digits@)) by {
            assert forall|i: int| 0 <= i < digits@.len() implies #[trigger] digits@[i] < 128 by {
                assert(crate::text::is_digit(decimal(n as nat)[i]));
            }
        }
    }
    ascii_string(digits)
}

/// The texts, separated by a comma and a space.
pub open spec fn comma_list(texts: Seq<Seq<char>>) -> Seq<char>
    decreases texts.len(),
{
    if texts.len() == 0 {
        Seq::empty()
    } else if texts.len() == 1 {
        texts[0]
    } else {
        comma_list(texts.drop_last()) + ", "@ + texts.last()
    }
}

/// The characters of each text.
pub open spec fn texts(v: Seq<String>) -> Seq<Seq<char>> {
    Seq::new(v.len(), |i: int| v[i]@)
}

/// The names, each quoted.
pub open spec fn quoted_names(names: Seq<&'static str>) -> Seq<Seq<char>> {
    Seq::new(names.len(), |i: int| debug_text(names[i]@))
}

fn quote_all(names: &Vec<&'static str>) -> (r: Vec<String>)
    ensures
        texts(r@) == quoted_names(names@),
{
    let mut out: Vec<String> = Vec::new();
    let mut i: usize = 0;
    while i < names.len()
        invariant
            0 <= i <= names.len(),
            out@.len() == i,
            forall|k: int| 0 <= k < i ==> (#[trigger] out@[k])@ == debug_text(names@[k]@),
        decreases names.len() - i,
    {
        out.push(quoted(names[i]));
        i = i + 1;
    }
    assert(texts(out@) =~= quoted_names(names@));
    out
}

/// The message of an ambiguous detection, given the quoted names of the candidates.
pub open spec fn ambiguous_message(quoted: Seq<Seq<char>>) -> Seq<char> {
    "ambiguous detection: ["@ + comma_list(quoted) + "]"@
}

/// Write the message of an ambiguous detection from the quoted names of the candidates.
pub fn ambiguous_text(quoted: &Vec<String>) -> (r: String)
    ensures
        r@ == ambiguous_message(texts(quoted@)),
{
    let ghost model = texts(quoted@);
    let mut list = String::new();
    let mut i: usize = 0;
    while i < quoted.len()
        invariant
            0 <= i <= quoted.len(),
            model == texts(quoted@),
            list@ == comma_list(model.take(i as int)),
        decreases quoted.len() - i,
    {
        if i > 0 {
            list.append(", ");
        }
        list.append(quoted[i].as_str());
        i = i + 1;
        assert(model.take(i as int).drop_last() =~= model.take(i - 1));
        assert(list@ =~= comma_list(model.take(i as int)));
    }
    assert(model.take(quoted.len() as int) =~= model);
    let mut s = String::from_str("ambiguous detection: [");
    s.append(list.as_str());
    s.append("]");
    s
}

/// The message of an I/O failure, given the text of its cause.
pub open spec fn io_message(op: Seq<char>, cause: Seq<char>) -> Seq<char> {
    "I/O during "@ + op + ": "@ + cause
}

/// Write the message of an I/O failure from the text of its cause.
pub fn io_text(op: &str, cause: &str) -> (r: String)
    ensures
        r@ == io_message(op@, cause@),
{
    let mut s = String::from_str("I/O during ");
    s.append(op);
    s.append(": ");
    s.append(cause);
    s
}

impl VfsError {
    /// `text` is the message of this error. The cause of an I/O failure words itself.
    pub open spec fn renders(&self, text: Seq<char>) -> bool {
        match self {
            VfsError::Io { op, .. } => exists|cause: Seq<char>|
                text == #[trigger] io_message(op@, cause),
            VfsError::Decode { layer, offset, detail, bytes } => text == "decode failed in "@
                + layer@ + " at offset "@ + number(*offset) + ": "@ + detail@ + " (bytes: "@
                + chars(spaced_hex(bytes@)) + ")"@,
            VfsError::Unrecognized { at, offset, bytes } => text == "unrecognized data at "@ + at@
                + " offset "@ + number(*offset) + " (bytes: "@ + chars(spaced_hex(bytes@)) + ")"@,
            VfsError::Ambiguous { candidates } => text == ambiguous_message(
                quoted_names(candidates@),
            ),
            VfsError::Bootstrap { stage, detail } => text == "bootstrap failed at "@ + stage@
                + ": "@ + detail@,
            VfsError::Unsupported { layer, scheme } => text == "unsupported "@ + layer@ + ": "@
                + scheme@,
            VfsError::Budget { cap, limit } => text == "budget exceeded: "@ + cap@ + " (limit "@
                + number(*limit) + ")"@,
            VfsError::NeedCredentials { scheme, target } => text == "credentials required for "@
                + scheme@ + " ("@ + target@ + ")"@,
            VfsError::OutOfRange { what, offset, len, bound } => text == what@ + ": offset "@
                + number(*offset) + "+"@ + number(*len) + " past bound "@ + number(*bound),
        }
    }

    /// The message of this error.
    pub fn to_string(&self) -> (r: String)
        ensures
            self.renders(r@),
    {
        match self {
            VfsError::Io { op, source } => {
                let cause = io_error_text(source);
                io_text(op, cause.as_str())
            },
            VfsError::Decode { layer, offset, detail, bytes } => {
                let mut s = String::from_str("decode failed in ");
                s.append(layer);
                s.append(" at offset ");
                s.append(number_text(*offset).as_str());
                s.append(": ");
                s.append(detail.as_str());
                s.append(" (bytes: ");
                s.append(bytes.to_string().as_str());
                s.append(")");
                s
            },
            VfsError::Unrecognized { at, offset, bytes } => {
                let mut s = String::from_str("unrecognized data at ");
                s.append(at);
                s.append(" offset ");
                s.append(number_text(*offset).as_str());
                s.append(" (bytes: ");
                s.append(bytes.to_string().as_str());
                s.append(")");
                s
            },
            VfsError::Ambiguous { candidates } => ambiguous_text(&quote_all(candidates)),
            VfsError::Bootstrap { stage, detail } => {
                let mut s = String::from_str("bootstrap failed at ");
                s.append(stage);
                s.append(": ");
                s.append(detail.as_str());
                s
            },
            VfsError::Unsupported { layer, scheme } => {
                let mut s = String::from_str("unsupported ");
                s.append(layer);
                s.append(": ");
                s.append(scheme.as_str());
                s
            },
            VfsError::Budget { cap, limit } => {
                let mut s = String::from_str("budget exceeded: ");
                s.append(cap);
                s.append(" (limit ");
                s.append(number_text(*limit).as_str());
                s.append(")");
                s
            },
            VfsError::NeedCredentials { scheme, target } => {
                let mut s = String::from_str("credentials required for ");
                s.append(scheme);
                s.append(" (");
                s.append(target.as_str());
                s.append(")");
                s
            },
            VfsError::OutOfRange { what, offset, len, bound } => {
                let mut s = String::from_str(what);
                s.append(": offset ");
                s.append(number_text(*offset).as_str());
                s.append("+");
                s.append(number_text(*len).as_str());
                s.append(" past bound ");
                s.append(number_text(*bound).as_str());
                s
            },
        }
    }
}

} // verus!

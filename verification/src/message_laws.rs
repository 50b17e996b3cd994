//! The messages, said character by character, and the registry, said prober by prober.

use vstd::prelude::*;

use crate::display_laws::letters;
use crate::engine::default_registry;
use crate::error::{
    ambiguous_text, comma_list, debug_text, io_text, number, quoted_names, spaced_hex, texts,
    SmallHex, VfsError, VfsResult,
};
use crate::fs::{ItemSource, Listed};
use crate::registry::{grows, Confidence, FileSystemProbe, Registry, VolumeSystemProbe, WindowModel};
use crate::text::{chars, decimal};
use crate::text_laws::{hex_byte, numeral};
use crate::volume::VolumeScheme;

verus! {

broadcast use vstd::seq::group_seq_axioms;

// ---------------------------------------------------------------------------
// Captured bytes
// ---------------------------------------------------------------------------

/// The text is the bytes in hexadecimal: two lower-case digits each, and one space between
/// any two bytes.
pub open spec fn spaced(t: Seq<char>, s: Seq<u8>) -> bool {
    &&& t.len() == if s.len() == 0 {
        0
    } else {
        3 * s.len() - 1
    }
    &&& forall|i: int|
        0 <= i < s.len() ==> t[3 * i] == hex_byte((#[trigger] s[i]) as int / 16, 0x61) as char
            && t[3 * i + 1] == hex_byte(s[i] as int % 16, 0x61) as char && (i + 1 < s.len()
            ==> t[3 * i + 2] == ' ')
}

proof fn lemma_spaced(s: Seq<u8>)
    ensures
        spaced(chars(spaced_hex(s)), s),
    decreases s.len(),
{
    let t = chars(spaced_hex(s));
    if s.len() > 0 {
        let front = s.drop_last();
        lemma_spaced(front);
        let before = spaced_hex(front);
        let n = s.len() - 1;
        assert(s.last() / 16 < 16 && s.last() % 16 < 16);
        assert(spaced_hex(s).len() == 3 * s.len() - 1);
        assert forall|i: int| 0 <= i < s.len() implies t[3 * i] == hex_byte(
            (#[trigger] s[i]) as int / 16,
            0x61,
        ) as char && t[3 * i + 1] == hex_byte(s[i] as int % 16, 0x61) as char && (i + 1 < s.len()
            ==> t[3 * i + 2] == ' ') by {
            if i < n {
                assert(front[i] == s[i]);
                assert(spaced_hex(s)[3 * i] == before[3 * i]);
                assert(spaced_hex(s)[3 * i + 1] == before[3 * i + 1]);
                assert(chars(before)[3 * i] == t[3 * i]);
                assert(chars(before)[3 * i + 1] == t[3 * i + 1]);
                if i + 1 < n {
                    assert(spaced_hex(s)[3 * i + 2] == before[3 * i + 2]);
                    assert(chars(before)[3 * i + 2] == t[3 * i + 2]);
                } else {
                    assert(before.len() == 3 * i + 2);
                    assert(spaced_hex(s)[3 * i + 2] == ' ' as u8);
                }
            }
        }
    }
}

/// Captured bytes are shown in hexadecimal with a space between any two.
pub proof fn a_capture_is_shown_with_spaces(h: SmallHex, t: String)
    requires
        call_ensures(SmallHex::to_string, (&h,), t),
    ensures
        spaced(t@, h@),
{
    lemma_spaced(h@);
}

// ---------------------------------------------------------------------------
// Errors
// ---------------------------------------------------------------------------

/// The texts in order, with a comma and a space between any two.
pub open spec fn listed(texts: Seq<Seq<char>>) -> Seq<char>
    decreases texts.len(),
{
    if texts.len() == 0 {
        Seq::empty()
    } else if texts.len() == 1 {
        texts[0]
    } else {
        texts[0] + seq![',', ' '] + listed(texts.skip(1))
    }
}

proof fn lemma_listed(texts: Seq<Seq<char>>)
    ensures
        comma_list(texts) == listed(texts),
    decreases texts.len(),
{
    if texts.len() > 1 {
        reveal_strlit(", ");
        assert(", "@ =~= seq![',', ' ']);
        lemma_listed(texts.drop_last());
        lemma_listed(texts.skip(1));
        let mid = texts.skip(1).drop_last();
        lemma_listed(mid);
        assert(texts.drop_last().skip(1) =~= mid);
        if texts.len() == 2 {
            assert(texts.drop_last() =~= seq![texts[0]]);
            assert(texts.skip(1) =~= seq![texts[1]]);
        } else {
            assert(texts.skip(1).last() == texts.last());
            let (a, b, c) = (texts[0] + seq![',', ' '], listed(mid), seq![',', ' '] + texts.last());
            assert(comma_list(texts.skip(1)) =~= b + c);
            assert(comma_list(texts) =~= a + b + c);
            assert(listed(texts) =~= a + (b + c));
        }
    }
}

/// The candidates of an ambiguous detection are listed in order, in brackets.
pub proof fn candidates_are_listed_in_order(quoted: &Vec<String>, r: String)
    requires
        call_ensures(ambiguous_text, (quoted,), r),
    ensures
        r@ == "ambiguous detection: ["@ + listed(texts(quoted@)) + "]"@,
{
    lemma_listed(texts(quoted@));
}

/// The message of the error: what went wrong, then its fields, numbers as their numerals and
/// bytes in hexadecimal. The cause of an I/O failure words itself.
pub open spec fn is_message(t: Seq<char>, e: VfsError) -> bool {
    match e {
        VfsError::Io { op, .. } => exists|cause: Seq<char>|
            t == #[trigger] ("I/O during "@ + op@ + ": "@ + cause),
        VfsError::Decode { layer, offset, detail, bytes } => exists|x: Seq<u8>, y: Seq<char>|
            {
                &&& #[trigger] numeral(x, offset as int)
                &&& #[trigger] spaced(y, bytes@)
                &&& t == "decode failed in "@ + layer@ + " at offset "@ + letters(x) + ": "@
                    + detail@ + " (bytes: "@ + y + ")"@
            },
        VfsError::Unrecognized { at, offset, bytes } => exists|x: Seq<u8>, y: Seq<char>|
            {
                &&& #[trigger] numeral(x, offset as int)
                &&& #[trigger] spaced(y, bytes@)
                &&& t == "unrecognized data at "@ + at@ + " offset "@ + letters(x) + " (bytes: "@
                    + y + ")"@
            },
        VfsError::Ambiguous { candidates } => t == "ambiguous detection: ["@ + listed(
            Seq::new(candidates@.len(), |i: int| debug_text(candidates@[i]@)),
        ) + "]"@,
        VfsError::Bootstrap { stage, detail } => t == "bootstrap failed at "@ + stage@ + ": "@
            + detail@,
        VfsError::Unsupported { layer, scheme } => t == "unsupported "@ + layer@ + ": "@ + scheme@,
        VfsError::Budget { cap, limit } => exists|x: Seq<u8>| #[trigger]
            numeral(x, limit as int) && t == "budget exceeded: "@ + cap@ + " (limit "@ + letters(x)
                + ")"@,
        VfsError::NeedCredentials { scheme, target } => t == "credentials required for "@ + scheme@
            + " ("@ + target@ + ")"@,
        VfsError::OutOfRange { what, offset, len, bound } => exists|
            x: Seq<u8>,
            y: Seq<u8>,
            z: Seq<u8>,
        |
            {
                &&& #[trigger] numeral(x, offset as int)
                &&& #[trigger] numeral(y, len as int)
                &&& #[trigger] numeral(z, bound as int)
                &&& t == what@ + ": offset "@ + letters(x) + "+"@ + letters(y) + " past bound "@
                    + letters(z)
            },
    }
}

proof fn lemma_number(n: u64)
    ensures
        numeral(decimal(n as nat), n as int),
        number(n) == letters(decimal(n as nat)),
{
    crate::text_laws::a_number_is_written_as_its_numeral(n as nat);
    assert(number(n) =~= letters(decimal(n as nat)));
}

/// An error's message names what went wrong and each of its fields.
pub proof fn an_error_names_its_fields(e: VfsError, r: String)
    requires
        call_ensures(VfsError::to_string, (&e,), r),
    ensures
        is_message(r@, e),
{
    match e {
        VfsError::Io { op, .. } => {
            let cause = choose|cause: Seq<char>|
                r@ == #[trigger] crate::error::io_message(op@, cause);
            assert(r@ == "I/O during "@ + op@ + ": "@ + cause);
        },
        VfsError::Decode { offset, bytes, .. } => {
            lemma_number(offset);
            lemma_spaced(bytes@);
        },
        VfsError::Unrecognized { offset, bytes, .. } => {
            lemma_number(offset);
            lemma_spaced(bytes@);
        },
        VfsError::Ambiguous { candidates } => {
            let names = Seq::new(candidates@.len(), |i: int| debug_text(candidates@[i]@));
            assert(quoted_names(candidates@) =~= names);
            lemma_listed(names);
        },
        VfsError::Budget { limit, .. } => lemma_number(limit),
        VfsError::OutOfRange { offset, len, bound, .. } => {
            lemma_number(offset);
            lemma_number(len);
            lemma_number(bound);
        },
        _ => {},
    }
}

/// The message of an I/O failure is the operation and the words of its cause.
pub proof fn an_io_failure_names_its_operation(op: &str, cause: &str, r: String)
    requires
        call_ensures(io_text, (op, cause), r),
    ensures
        r@ == "I/O during "@ + op@ + ": "@ + cause@,
{
}

// ---------------------------------------------------------------------------
// The registry
// ---------------------------------------------------------------------------

/// `now` holds what `before` holds, at the same places, and after it `p`.
pub open spec fn followed_by<P>(now: Seq<P>, before: Seq<P>, p: P) -> bool {
    &&& now.len() == before.len() + 1
    &&& forall|i: int| 0 <= i < before.len() ==> #[trigger] now[i] == before[i]
    &&& now[before.len() as int] == p
}

/// A table that grew by one prober holds the earlier ones at their places, and the new one
/// after them.
pub proof fn a_prober_is_registered_last<P>(now: Seq<P>, before: Seq<P>)
    requires
        grows(now, before),
    ensures
        followed_by(now, before, now.last()),
{
    assert forall|i: int| 0 <= i < before.len() implies #[trigger] now[i] == before[i] by {
        assert(now.drop_last()[i] == now[i]);
    }
}

/// A new registry holds no prober.
pub proof fn a_new_registry_is_empty(reg: Registry)
    requires
        call_ensures(Registry::new, (), reg),
    ensures
        reg@.containers.len() == 0,
        reg@.volume_systems.len() == 0,
        reg@.encryption.len() == 0,
        reg@.crypto.len() == 0,
        reg@.archives.len() == 0,
        reg@.filesystems.len() == 0,
{
}

/// The registry of every reader holds the given filesystem probers in order and two
/// partition tables: first the one that is known by the signature of a GUID table, then the
/// one that is known by a boot sector.
pub proof fn the_guid_table_is_asked_first(
    filesystems: Vec<Box<dyn FileSystemProbe>>,
    reg: Registry,
)
    requires
        call_ensures(default_registry, (filesystems,), reg),
    ensures
        reg@.filesystems == filesystems@,
        reg@.volume_systems.len() == 2,
        forall|s: VolumeScheme| #[trigger]
            reg@.volume_systems[0].may_scheme(s) ==> s == VolumeScheme::Gpt,
        forall|s: VolumeScheme| #[trigger]
            reg@.volume_systems[1].may_scheme(s) ==> s == VolumeScheme::Mbr,
        forall|w: WindowModel, c: Confidence| #[trigger]
            reg@.volume_systems[0].may_probe(w, c) ==> (c is Yes <==> crate::disk_laws::signed_at(
                w.bytes,
                512,
            )),
        reg@.containers.len() == 0,
        reg@.encryption.len() == 0,
        reg@.crypto.len() == 0,
        reg@.archives.len() == 0,
{
    assert forall|w: WindowModel, c: Confidence| #[trigger]
        reg@.volume_systems[0].may_probe(w, c) implies (c is Yes <==> crate::disk_laws::signed_at(
        w.bytes,
        512,
    )) by {
        assert(crate::partition::GptProbe.may_probe(w, c));
        crate::disk_laws::a_guid_table_is_known_by_its_signature(w, c);
    }
    assert forall|s: VolumeScheme| #[trigger] reg@.volume_systems[0].may_scheme(s) implies s
        == VolumeScheme::Gpt by {
        assert(crate::partition::GptProbe.may_scheme(s));
    }
    assert forall|s: VolumeScheme| #[trigger] reg@.volume_systems[1].may_scheme(s) implies s
        == VolumeScheme::Mbr by {
        assert(crate::partition::MbrProbe.may_scheme(s));
    }
}

// ---------------------------------------------------------------------------
// Supplies
// ---------------------------------------------------------------------------

/// A supply of items that are at hand gives them in order, and none besides: what it gives
/// first is what stands first, and when it ends it has given all.
pub proof fn a_supply_gives_its_items_in_order<T: Send>(
    items: Vec<VfsResult<T>>,
    l: Listed<T>,
    given: Seq<VfsResult<T>>,
    done: bool,
)
    requires
        call_ensures(Listed::<T>::new, (items,), l),
    ensures
        l.may_yield(given, done) <==> {
            &&& given.len() <= items@.len()
            &&& forall|i: int| 0 <= i < given.len() ==> #[trigger] given[i] == items@[i]
            &&& done ==> given.len() == items@.len()
        },
{
    if given.len() <= items@.len() {
        let head = items@.take(given.len() as int);
        if l.may_yield(given, done) {
            assert forall|i: int| 0 <= i < given.len() implies #[trigger] given[i] == items@[i] by {
                assert(given[i] == head[i]);
            }
        }
        if forall|i: int| 0 <= i < given.len() ==> #[trigger] given[i] == items@[i] {
            assert(given =~= head);
        }
    }
}

} // verus!

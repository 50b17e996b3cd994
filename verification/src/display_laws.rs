//! The human form of a locator, said layer by layer.

use vstd::prelude::*;
use vstd::utf8::{decode_utf8, valid_utf8};

use crate::display::{lossy_text, shown, shown_layer, slashed};
use crate::error::number;
use crate::pathspec::{AddrModel, LayerModel, PathSpec, SnapshotRef};
use crate::text::{chars, decimal};
use crate::text_laws::{is_file_id_text, is_stream_text, numeral};
use crate::tokens::{container_name, crypto_name, encryption_name, fs_name, volume_name};
use crate::uri::{file_id_text, stream_text};

verus! {

broadcast use vstd::seq::group_seq_axioms;

/// The characters of ASCII bytes.
pub open spec fn letters(t: Seq<u8>) -> Seq<char> {
    Seq::new(t.len(), |i: int| t[i] as char)
}

/// The text of a name: what its bytes encode, or what is readable of them.
pub open spec fn readable(name: Seq<u8>) -> Seq<char> {
    if valid_utf8(name) {
        decode_utf8(name)
    } else {
        lossy_text(name)
    }
}

/// The names in order, with a slash between any two.
pub open spec fn slash_between(names: Seq<Seq<u8>>) -> Seq<char>
    decreases names.len(),
{
    if names.len() == 0 {
        Seq::empty()
    } else if names.len() == 1 {
        readable(names[0])
    } else {
        slash_between(names.drop_last()) + seq!['/'] + readable(names.last())
    }
}

/// The text is the number between the two others.
pub open spec fn around(t: Seq<char>, before: Seq<char>, n: int, after: Seq<char>) -> bool {
    exists|x: Seq<u8>| #[trigger] numeral(x, n) && t == before + letters(x) + after
}

/// How a layer is shown.
pub open spec fn is_shown(t: Seq<char>, l: LayerModel) -> bool {
    match l {
        LayerModel::Os { path } => t == "os:"@ + readable(path),
        LayerModel::Range { start, len } => exists|x: Seq<u8>, y: Seq<u8>|
            {
                &&& #[trigger] numeral(x, start as int)
                &&& #[trigger] numeral(y, len as int)
                &&& t == "range["@ + letters(x) + "+"@ + letters(y) + "]"@
            },
        LayerModel::Container { format } => t == container_name(format),
        LayerModel::Volume { scheme, index, .. } => around(
            t,
            volume_name(scheme) + "#"@,
            index as int,
            Seq::empty(),
        ),
        LayerModel::Crypto { scheme } => t == crypto_name(scheme),
        LayerModel::Encryption { scheme } => t == encryption_name(scheme),
        LayerModel::Archive { member } => match member {
            None => t == "archive"@,
            Some(i) => around(t, "archive#"@, i as int, Seq::empty()),
        },
        LayerModel::Snapshot { store } => match store {
            SnapshotRef::VssStore(i) => around(t, "vss#"@, i as int, Seq::empty()),
            SnapshotRef::ApfsXid(n) => around(t, "apfs@"@, n as int, Seq::empty()),
        },
        LayerModel::Fs { kind, at } => match at {
            AddrModel::File(id) => exists|x: Seq<u8>| #[trigger]
                is_file_id_text(x, id) && t == fs_name(kind) + "#"@ + letters(x),
            AddrModel::Path(cs) => t == fs_name(kind) + ":/"@ + slash_between(cs),
            AddrModel::Both { path, .. } => t == fs_name(kind) + ":/"@ + slash_between(path),
        },
        LayerModel::Stream { id } => exists|x: Seq<u8>| #[trigger]
            is_stream_text(x, id) && t == ":"@ + letters(x),
    }
}

proof fn lemma_number(n: u64)
    ensures
        numeral(decimal(n as nat), n as int),
        number(n) == letters(decimal(n as nat)),
{
    crate::text_laws::a_number_is_written_as_its_numeral(n as nat);
    assert(number(n) =~= letters(decimal(n as nat)));
}

proof fn lemma_around(t: Seq<char>, before: Seq<char>, n: u64)
    requires
        t == before + number(n),
    ensures
        around(t, before, n as int, Seq::empty()),
{
    lemma_number(n);
    assert(t =~= before + letters(decimal(n as nat)) + Seq::<char>::empty());
}

proof fn lemma_slashed(names: Seq<Seq<u8>>)
    ensures
        slashed(crate::display::lossy_texts(names)) == slash_between(names),
    decreases names.len(),
{
    reveal_strlit("/");
    let texts = crate::display::lossy_texts(names);
    if names.len() == 1 {
        assert(texts[0] == readable(names[0]));
    } else if names.len() > 1 {
        lemma_slashed(names.drop_last());
        assert(texts.drop_last() =~= crate::display::lossy_texts(names.drop_last()));
        assert("/"@ =~= seq!['/']);
    }
}

/// Each layer is shown by its name and its fields, numbers as their numerals and names as
/// their text.
pub proof fn a_layer_is_shown_field_by_field(l: LayerModel)
    ensures
        is_shown(shown_layer(l), l),
{
    let t = shown_layer(l);
    match l {
        LayerModel::Os { path } => {
            lemma_slashed(seq![path]);
        },
        LayerModel::Range { start, len } => {
            lemma_number(start);
            lemma_number(len);
        },
        LayerModel::Volume { scheme, index, .. } => {
            lemma_around(t, volume_name(scheme) + "#"@, index as u64);
        },
        LayerModel::Archive { member } => {
            if let Some(i) = member {
                lemma_around(t, "archive#"@, i as u64);
            }
        },
        LayerModel::Snapshot { store } => match store {
            SnapshotRef::VssStore(i) => lemma_around(t, "vss#"@, i as u64),
            SnapshotRef::ApfsXid(n) => lemma_around(t, "apfs@"@, n),
        },
        LayerModel::Fs { kind, at } => match at {
            AddrModel::File(id) => {
                crate::text_laws::lemma_file_id(id);
                assert(chars(file_id_text(id)) =~= letters(file_id_text(id)));
            },
            AddrModel::Path(cs) => lemma_slashed(cs),
            AddrModel::Both { path, .. } => lemma_slashed(path),
        },
        LayerModel::Stream { id } => {
            crate::text_laws::lemma_stream(id);
            assert(chars(stream_text(id)) =~= letters(stream_text(id)));
        },
        _ => {},
    }
}

/// A locator that stands alone is shown as its layer.
pub proof fn a_root_is_shown_as_its_layer(p: PathSpec, s: String)
    requires
        call_ensures(PathSpec::to_string, (&p,), s),
        p.parent is None,
    ensures
        is_shown(s@, p.layer@),
{
    a_layer_is_shown_field_by_field(p.layer@);
    assert(p@ =~= seq![p.layer@]);
}

/// A locator is shown after its parent, with a bar between them.
pub proof fn a_locator_is_shown_after_its_parent(p: PathSpec, q: PathSpec, s: String, t: String)
    requires
        p.parent == Some(Box::new(q)),
        call_ensures(PathSpec::to_string, (&q,), s),
        call_ensures(PathSpec::to_string, (&p,), t),
    ensures
        exists|x: Seq<char>| #[trigger]
            is_shown(x, p.layer@) && t@ == s@ + seq![' ', '|', ' '] + x,
{
    let l = p.layer@;
    reveal_strlit(" | ");
    a_layer_is_shown_field_by_field(l);
    crate::pathspec::lemma_chain_nonempty(q);
    assert(p@ =~= q@.push(l));
    assert(p@.drop_last() =~= q@);
    assert(" | "@ =~= seq![' ', '|', ' ']);
    assert(shown(p@) == shown(q@) + " | "@ + shown_layer(l));
}

} // verus!

//! The lossy, human-readable form of a [`PathSpec`]: for reading, not for parsing.
//! The form that reads back is [`PathSpec::to_uri`].

use forensicnomicon_core::FileId;
use vstd::prelude::*;
use vstd::string::StringExecFns;
use vstd::utf8::{decode_utf8, encode_scalar, encode_utf8, valid_utf8};

use crate::error::{number, number_text, texts};
use crate::fs::StreamId;
use crate::pathspec::{components, AddrModel, Layer, LayerModel, NodeAddr, PathSpec, SnapshotRef};
use crate::text::{ascii, ascii_string, chars};
use crate::tokens::{
    container_name, container_token, crypto_name, crypto_token, encryption_name, encryption_token,
    fs_name, fs_token, lemma_container_head, lemma_crypto_head, lemma_encryption_head,
    lemma_fs_head, lemma_volume_head, plain_head, volume_name, volume_token,
};
use crate::uri::{chain_of, file_id_text, file_id_token, stream_text, stream_token};

verus! {

broadcast use vstd::seq::group_seq_axioms;

/// The text that bytes show when what is not UTF-8 in them is replaced.
pub uninterp spec fn lossy_text(bytes: Seq<u8>) -> Seq<char>;

/// `String::from_utf8_lossy`: the text of the bytes, with replacement characters for
/// what is not valid UTF-8, named [`lossy_text`]. Valid UTF-8 is the text that it
/// encodes.
#[verifier::external_body]
fn lossy(bytes: &[u8]) -> (r: String)
    ensures
        r@ == lossy_text(bytes@),
        valid_utf8(bytes@) ==> r@ == decode_utf8(bytes@),
{
    String::from_utf8_lossy(bytes).into_owned()
}

/// The names, with slashes between them.
pub open spec fn slashed(names: Seq<Seq<char>>) -> Seq<char>
    decreases names.len(),
{
    if names.len() == 0 {
        Seq::empty()
    } else if names.len() == 1 {
        names[0]
    } else {
        slashed(names.drop_last()) + "/"@ + names.last()
    }
}

/// The byte strings that a layer shows as text: the path of a file, or the components
/// of a path within a filesystem.
pub open spec fn raw_names(l: LayerModel) -> Seq<Seq<u8>> {
    match l {
        LayerModel::Os { path } => seq![path],
        LayerModel::Fs { at: AddrModel::Path(cs), .. } => cs,
        LayerModel::Fs { at: AddrModel::Both { path, .. }, .. } => path,
        _ => Seq::empty(),
    }
}

/// The text of a byte string: what it encodes where it is UTF-8, and its lossy reading
/// where it is not.
pub open spec fn name_text(name: Seq<u8>) -> Seq<char> {
    if valid_utf8(name) {
        decode_utf8(name)
    } else {
        lossy_text(name)
    }
}

/// The text of each byte string.
pub open spec fn lossy_texts(names: Seq<Seq<u8>>) -> Seq<Seq<char>> {
    Seq::new(names.len(), |i: int| name_text(names[i]))
}

/// A layer, shown, given the texts of its byte strings.
pub open spec fn shown_layer_as(l: LayerModel, names: Seq<Seq<char>>) -> Seq<char> {
    match l {
        LayerModel::Os { .. } => "os:"@ + slashed(names),
        LayerModel::Range { start, len } => "range["@ + number(start) + "+"@ + number(len) + "]"@,
        LayerModel::Container { format } => container_name(format),
        LayerModel::Volume { scheme, index, .. } => volume_name(scheme) + "#"@ + number(
            index as u64,
        ),
        LayerModel::Crypto { scheme } => crypto_name(scheme),
        LayerModel::Encryption { scheme } => encryption_name(scheme),
        LayerModel::Archive { member } => match member {
            Some(i) => "archive#"@ + number(i as u64),
            None => "archive"@,
        },
        LayerModel::Snapshot { store } => match store {
            SnapshotRef::VssStore(i) => "vss#"@ + number(i as u64),
            SnapshotRef::ApfsXid(x) => "apfs@"@ + number(x),
        },
        LayerModel::Fs { kind, at } => match at {
            AddrModel::File(id) => fs_name(kind) + "#"@ + chars(file_id_text(id)),
            _ => fs_name(kind) + ":/"@ + slashed(names),
        },
        LayerModel::Stream { id } => ":"@ + chars(stream_text(id)),
    }
}

/// A layer, shown.
pub open spec fn shown_layer(l: LayerModel) -> Seq<char> {
    shown_layer_as(l, lossy_texts(raw_names(l)))
}

/// The layers, shown with bars between them.
pub open spec fn shown(ls: Seq<LayerModel>) -> Seq<char>
    decreases ls.len(),
{
    if ls.len() == 0 {
        Seq::empty()
    } else if ls.len() == 1 {
        shown_layer(ls[0])
    } else {
        shown(ls.drop_last()) + " | "@ + shown_layer(ls.last())
    }
}

fn slashed_text(names: &Vec<String>) -> (r: String)
    ensures
        r@ == slashed(texts(names@)),
{
    let ghost model = texts(names@);
    let mut out = String::new();
    let mut i: usize = 0;
    while i < names.len()
        invariant
            0 <= i <= names.len(),
            model == texts(names@),
            out@ == slashed(model.take(i as int)),
        decreases names.len() - i,
    {
        if i > 0 {
            out.append("/");
        }
        out.append(names[i].as_str());
        i = i + 1;
        assert(model.take(i as int).drop_last() =~= model.take(i - 1));
        assert(out@ =~= slashed(model.take(i as int)));
    }
    assert(model.take(names.len() as int) =~= model);
    out
}

fn lossy_all(cs: &Vec<Vec<u8>>) -> (r: Vec<String>)
    ensures
        texts(r@) == lossy_texts(components(cs@)),
{
    let mut out: Vec<String> = Vec::new();
    let mut i: usize = 0;
    while i < cs.len()
        invariant
            0 <= i <= cs.len(),
            out@.len() == i,
            forall|k: int| 0 <= k < i ==> (#[trigger] out@[k])@ == name_text(cs@[k]@),
        decreases cs.len() - i,
    {
        out.push(lossy(cs[i].as_slice()));
        i = i + 1;
    }
    assert(texts(out@) =~= lossy_texts(components(cs@)));
    out
}

/// The texts of the byte strings of a layer.
fn layer_names(l: &Layer) -> (r: Vec<String>)
    ensures
        texts(r@) == lossy_texts(raw_names(l@)),
{
    match l {
        Layer::Os { path } => {
            let mut out: Vec<String> = Vec::new();
            out.push(lossy(path.as_slice()));
            assert(texts(out@) =~= lossy_texts(raw_names(l@)));
            out
        },
        Layer::Fs { at: NodeAddr::Path(cs), .. } => lossy_all(cs),
        Layer::Fs { at: NodeAddr::Both { path, .. }, .. } => lossy_all(path),
        _ => {
            let out: Vec<String> = Vec::new();
            assert(texts(out@) =~= lossy_texts(raw_names(l@)));
            out
        },
    }
}

fn file_id_string(id: FileId) -> (r: String)
    ensures
        r@ == chars(file_id_text(id)),
{
    let mut out: Vec<u8> = Vec::new();
    file_id_token(&mut out, id);
    proof {
        assert(out@ =~= file_id_text(id));
        crate::uri_laws::lemma_file_id_ascii(id);
    }
    ascii_string(out)
}

fn stream_string(id: StreamId) -> (r: String)
    ensures
        r@ == chars(stream_text(id)),
{
    let mut out: Vec<u8> = Vec::new();
    stream_token(&mut out, id);
    proof {
        assert(out@ =~= stream_text(id));
        crate::uri_laws::lemma_stream_ascii(id);
    }
    ascii_string(out)
}

/// Show a layer, given the texts of its byte strings: the path of a file, or the
/// components of a path within a filesystem.
pub fn shown_layer_text(l: &Layer, names: &Vec<String>) -> (r: String)
    ensures
        r@ == shown_layer_as(l@, texts(names@)),
{
    match l {
        Layer::Os { .. } => {
            let mut s = String::from_str("os:");
            s.append(slashed_text(names).as_str());
            s
        },
        Layer::Range { start, len } => {
            let mut s = String::from_str("range[");
            s.append(number_text(*start).as_str());
            s.append("+");
            s.append(number_text(*len).as_str());
            s.append("]");
            s
        },
        Layer::Container { format } => String::from_str(container_token(*format)),
        Layer::Volume { scheme, index, .. } => {
            let mut s = String::from_str(volume_token(*scheme));
            s.append("#");
            s.append(number_text(*index as u64).as_str());
            s
        },
        Layer::Crypto { scheme } => String::from_str(crypto_token(*scheme)),
        Layer::Encryption { scheme } => String::from_str(encryption_token(*scheme)),
        Layer::Archive { member } => match member {
            Some(i) => {
                let mut s = String::from_str("archive#");
                s.append(number_text(*i as u64).as_str());
                s
            },
            None => String::from_str("archive"),
        },
        Layer::Snapshot { store } => match store {
            SnapshotRef::VssStore(i) => {
                let mut s = String::from_str("vss#");
                s.append(number_text(*i as u64).as_str());
                s
            },
            SnapshotRef::ApfsXid(x) => {
                let mut s = String::from_str("apfs@");
                s.append(number_text(*x).as_str());
                s
            },
        },
        Layer::Fs { kind, at } => {
            let mut s = String::from_str(fs_token(*kind));
            match at {
                NodeAddr::File(id) => {
                    s.append("#");
                    s.append(file_id_string(*id).as_str());
                },
                _ => {
                    s.append(":/");
                    s.append(slashed_text(names).as_str());
                },
            }
            s
        },
        Layer::Stream { id } => {
            let mut s = String::from_str(":");
            s.append(stream_string(*id).as_str());
            s
        },
    }
}

impl PathSpec {
    /// The human-readable form.
    pub fn to_string(&self) -> (r: String)
        ensures
            r@ == shown(self@),
    {
        let layers = self.layers();
        let ghost model = self@;
        let mut out = String::new();
        let mut i: usize = 0;
        while i < layers.len()
            invariant
                0 <= i <= layers.len(),
                layers@.len() == model.len(),
                forall|k: int| 0 <= k < layers@.len() ==> (#[trigger] layers@[k])@ == model[k],
                out@ == shown(model.take(i as int)),
            decreases layers.len() - i,
        {
            if i > 0 {
                out.append(" | ");
            }
            let names = layer_names(layers[i]);
            out.append(shown_layer_text(layers[i], &names).as_str());
            i = i + 1;
            assert(model.take(i as int).drop_last() =~= model.take(i - 1));
            assert(out@ =~= shown(model.take(i as int)));
        }
        assert(model.take(layers.len() as int) =~= model);
        out
    }
}

// ---------------------------------------------------------------------------
// The human-readable form is not a text form
// ---------------------------------------------------------------------------

proof fn lemma_plain_head_bytes(c: Seq<char>)
    requires
        plain_head(c),
    ensures
        encode_utf8(c).len() >= 2,
        encode_utf8(c)[0] == c[0] as u8,
        encode_utf8(c)[1] == c[1] as u8,
{
    reveal_with_fuel(encode_utf8, 3);
    let a = c[0] as u32;
    let b = c[1] as u32;
    assert((a & 0x7f) as u8 == a as u8) by (bit_vector)
        requires
            a < 128,
    ;
    assert((b & 0x7f) as u8 == b as u8) by (bit_vector)
        requires
            b < 128,
    ;
    assert(encode_scalar(a) == seq![a as u8]);
    assert(encode_scalar(b) == seq![b as u8]);
    let rest = c.drop_first();
    assert(rest[0] == c[1]);
    assert(encode_utf8(c) == encode_scalar(a) + encode_utf8(rest));
    assert(encode_utf8(rest) == encode_scalar(b) + encode_utf8(rest.drop_first()));
}

proof fn lemma_shown_layer_head(l: LayerModel)
    ensures
        plain_head(shown_layer(l)),
{
    match l {
        LayerModel::Os { .. } => reveal_strlit("os:"),
        LayerModel::Range { .. } => reveal_strlit("range["),
        LayerModel::Container { format } => lemma_container_head(format),
        LayerModel::Volume { scheme, .. } => lemma_volume_head(scheme),
        LayerModel::Crypto { scheme } => lemma_crypto_head(scheme),
        LayerModel::Encryption { scheme } => lemma_encryption_head(scheme),
        LayerModel::Archive { .. } => {
            reveal_strlit("archive#");
            reveal_strlit("archive");
        },
        LayerModel::Snapshot { .. } => {
            reveal_strlit("vss#");
            reveal_strlit("apfs@");
        },
        LayerModel::Fs { kind, .. } => lemma_fs_head(kind),
        LayerModel::Stream { id } => {
            reveal_strlit(":");
            crate::uri_laws::lemma_stream_ascii(id);
            crate::uri_laws::lemma_stream_nonempty(id);
            let t = stream_text(id);
            assert(t[0] < 128);
            assert(shown_layer(l)[1] == t[0] as char);
        },
    }
}

proof fn lemma_shown_head(ls: Seq<LayerModel>)
    requires
        ls.len() > 0,
    ensures
        plain_head(shown(ls)),
    decreases ls.len(),
{
    if ls.len() == 1 {
        lemma_shown_layer_head(ls[0]);
    } else {
        lemma_shown_head(ls.drop_last());
    }
}

/// No human-readable form is accepted as the canonical text of a locator.
pub proof fn human_form_never_parses(spec: PathSpec)
    ensures
        chain_of(encode_utf8(shown(spec@))) is Err,
{
    crate::pathspec::lemma_chain_nonempty(spec);
    lemma_shown_head(spec@);
    lemma_plain_head_bytes(shown(spec@));
    reveal_strlit("fvfs:");
    let b = encode_utf8(shown(spec@));
    assert(ascii("fvfs:"@)[0] == 'f' as u8);
    assert(ascii("fvfs:"@)[1] == 'v' as u8);
    if b.len() >= 5 && b.take(5) == ascii("fvfs:"@) {
        assert(b.take(5)[0] == b[0] && b.take(5)[1] == b[1]);
        let c = shown(spec@);
        assert(c[0] as u8 == 'f' as u8 && c[1] as u8 == 'v' as u8);
    }
}

} // verus!

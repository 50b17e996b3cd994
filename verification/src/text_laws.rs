//! The text forms, said byte by byte.

use forensicnomicon_core::FileId;
use vstd::prelude::*;
use vstd::utf8::encode_utf8;

use crate::crypto::CryptoScheme;
use crate::encryption::EncryptionScheme;
use crate::error::SmallHex;
use crate::fs::{FsKind, StreamId};
use crate::pathspec::{AddrModel, Layer, LayerModel, PathSpec, SnapshotRef};
use crate::percent::{decoded, encoded, encoded_byte};
use crate::registry::ContainerFormat;
use crate::text::{
    all_digits, ascii, decimal, digits_value, hex_text, parse_hex_pair, parse_unsigned, split,
    split_once,
};
use crate::tokens::{
    container_name, container_token, crypto_name, crypto_token, encryption_name, encryption_token,
    fs_name, fs_token, volume_name, volume_token,
};
use crate::uri::{
    addr_text, body_text, dotted, dotted2, encoded_components, file_id_text, layer_text,
    layer_texts, path_text, stream_text,
};
use crate::volume::VolumeScheme;

verus! {

broadcast use vstd::seq::group_seq_axioms;

/// The bytes of an ASCII word.
pub open spec fn word(s: Seq<char>) -> Seq<u8> {
    Seq::new(s.len(), |i: int| s[i] as u8)
}

// ---------------------------------------------------------------------------
// Numbers
// ---------------------------------------------------------------------------

/// The number that decimal digits write, the most significant first.
pub open spec fn value_of(t: Seq<u8>) -> int
    decreases t.len(),
{
    if t.len() == 0 {
        0
    } else {
        10 * value_of(t.drop_last()) + (t.last() - 0x30)
    }
}

/// Digits from 0 to 9, at least one.
pub open spec fn are_digits(t: Seq<u8>) -> bool {
    t.len() > 0 && forall|i: int| 0 <= i < t.len() ==> 0x30 <= #[trigger] t[i] <= 0x39
}

/// The numeral of `n`: its digits, without a zero in front.
pub open spec fn numeral(t: Seq<u8>, n: int) -> bool {
    are_digits(t) && value_of(t) == n && (t.len() > 1 ==> t[0] != 0x30)
}

pub(crate) proof fn lemma_value(t: Seq<u8>)
    requires
        all_digits(t),
    ensures
        digits_value(t) == value_of(t),
    decreases t.len(),
{
    if t.len() > 0 {
        assert(all_digits(t.drop_last()));
        lemma_value(t.drop_last());
        assert(crate::text::is_digit(t[t.len() - 1]));
    }
}

/// A number is written as its numeral.
pub proof fn a_number_is_written_as_its_numeral(n: nat)
    ensures
        numeral(decimal(n), n as int),
    decreases n,
{
    crate::text::lemma_decimal(n);
    let t = decimal(n);
    lemma_value(t);
    assert forall|i: int| 0 <= i < t.len() implies 0x30 <= #[trigger] t[i] <= 0x39 by {
        assert(crate::text::is_digit(t[i]));
    }
    if n >= 10 {
        a_number_is_written_as_its_numeral(n / 10);
        let head = decimal(n / 10);
        assert(t[0] == head[0]);
        if head.len() == 1 {
            assert(value_of(head) == head[0] - 0x30) by {
                assert(head.drop_last() =~= Seq::<u8>::empty());
                assert(value_of(head.drop_last()) == 0);
            }
        }
    }
}

/// A text is read as a number of at most `max` exactly when it is digits that write such a
/// number, with at most one plus sign in front.
pub proof fn a_number_is_read_from_its_digits(s: &[u8], max: u64, r: Option<u64>)
    requires
        call_ensures(parse_unsigned, (s, max), r),
    ensures
        ({
            let t = if s@.len() > 0 && s@[0] == 0x2b {
                s@.skip(1)
            } else {
                s@
            };
            match r {
                Some(v) => are_digits(t) && value_of(t) == v && v <= max,
                None => !(are_digits(t) && value_of(t) <= max),
            }
        }),
{
    let t = if s@.len() > 0 && s@[0] == 0x2b {
        s@.skip(1)
    } else {
        s@
    };
    if are_digits(t) {
        assert(all_digits(t)) by {
            assert forall|i: int| 0 <= i < t.len() implies crate::text::is_digit(
                #[trigger] t[i],
            ) by {}
        }
        lemma_value(t);
    } else if t.len() > 0 && all_digits(t) {
        assert forall|i: int| 0 <= i < t.len() implies 0x30 <= #[trigger] t[i] <= 0x39 by {
            assert(crate::text::is_digit(t[i]));
        }
    }
}

// ---------------------------------------------------------------------------
// Hexadecimal digits
// ---------------------------------------------------------------------------

/// The hexadecimal digit of `n`, with the letters from `a` on.
pub open spec fn hex_byte(n: int, a: u8) -> u8 {
    if n < 10 {
        (0x30 + n) as u8
    } else {
        (a + n - 10) as u8
    }
}

/// What a hexadecimal digit of either case is worth; -1 for another byte.
pub open spec fn worth(b: u8) -> int {
    if 0x30 <= b <= 0x39 {
        b - 0x30
    } else if 0x41 <= b <= 0x46 {
        b - 0x41 + 10
    } else if 0x61 <= b <= 0x66 {
        b - 0x61 + 10
    } else {
        -1
    }
}

/// Two bytes are read as one exactly when both are hexadecimal digits, of either case, the
/// first worth sixteen times the second.
pub proof fn a_pair_of_digits_is_a_byte(a: u8, b: u8, r: Option<u8>)
    requires
        call_ensures(parse_hex_pair, (a, b), r),
    ensures
        match r {
            Some(v) => worth(a) >= 0 && worth(b) >= 0 && v == 16 * worth(a) + worth(b),
            None => worth(a) < 0 || worth(b) < 0,
        },
{
}

/// The text is the bytes in hexadecimal: two digits each, letters in lower case.
pub open spec fn hexed(t: Seq<u8>, s: Seq<u8>) -> bool {
    &&& t.len() == 2 * s.len()
    &&& forall|i: int|
        0 <= i < s.len() ==> t[2 * i] == hex_byte((#[trigger] s[i]) as int / 16, 0x61) && t[2 * i
            + 1] == hex_byte(s[i] as int % 16, 0x61)
}

/// Bytes are written in hexadecimal with two lower-case digits each.
pub proof fn bytes_are_written_in_hexadecimal(s: Seq<u8>)
    ensures
        hexed(hex_text(s), s),
{
    crate::text::lemma_hex_text(s);
    assert forall|i: int| 0 <= i < s.len() implies hex_text(s)[2 * i] == hex_byte(
        (#[trigger] s[i]) as int / 16,
        0x61,
    ) && hex_text(s)[2 * i + 1] == hex_byte(s[i] as int % 16, 0x61) by {
        assert(s[i] / 16 < 16 && s[i] % 16 < 16);
        assert(hex_text(s)[2 * i] == crate::text::hex_lower(s[i] / 16));
    }
}

/// A capture holds the first bytes that it was given, no more than 16.
pub proof fn a_capture_holds_the_first_bytes(bytes: &[u8], h: SmallHex)
    requires
        call_ensures(SmallHex::new, (bytes,), h),
    ensures
        h@.len() == if bytes@.len() < 16 {
            bytes@.len()
        } else {
            16
        },
        forall|i: int| 0 <= i < h@.len() ==> #[trigger] h@[i] == bytes@[i],
{
}

// ---------------------------------------------------------------------------
// Escapes
// ---------------------------------------------------------------------------

/// A letter, a digit, a dot, an underscore or a hyphen.
pub open spec fn plain(b: u8) -> bool {
    ||| 0x61 <= b <= 0x7a
    ||| 0x41 <= b <= 0x5a
    ||| 0x30 <= b <= 0x39
    ||| b == 0x2e
    ||| b == 0x5f
    ||| b == 0x2d
}

/// A plain byte as it is, any other as a percent sign and two upper-case digits.
pub open spec fn escape(b: u8) -> Seq<u8> {
    if plain(b) {
        seq![b]
    } else {
        seq![0x25u8, hex_byte(b as int / 16, 0x41), hex_byte(b as int % 16, 0x41)]
    }
}

/// The escapes of the bytes, one after the other.
pub open spec fn escapes(s: Seq<u8>) -> Seq<u8>
    decreases s.len(),
{
    if s.len() == 0 {
        Seq::empty()
    } else {
        escapes(s.drop_last()) + escape(s.last())
    }
}

proof fn lemma_escape(b: u8)
    ensures
        encoded_byte(b) == escape(b),
{
    assert(b / 16 < 16 && b % 16 < 16);
    assert(encoded_byte(b) =~= escape(b));
}

/// Encoding escapes each byte by itself, and only the bytes that are not plain.
pub proof fn encoding_escapes_each_byte(s: Seq<u8>)
    ensures
        encoded(s) == escapes(s),
    decreases s.len(),
{
    if s.len() > 0 {
        encoding_escapes_each_byte(s.drop_last());
        lemma_escape(s.last());
    }
}

/// Decoding goes byte by byte: a byte that is not a percent sign stands for itself, and a
/// percent sign and two hexadecimal digits of either case for the byte that they write.
pub proof fn decoding_goes_byte_by_byte(t: Seq<u8>, a: u8, b: u8)
    ensures
        decoded(Seq::empty()) == Ok::<Seq<u8>, Seq<char>>(Seq::empty()),
        a != 0x25 ==> match decoded(t) {
            Ok(s) => decoded(seq![a] + t) == Ok::<Seq<u8>, Seq<char>>(seq![a] + s),
            Err(_) => decoded(seq![a] + t) is Err,
        },
        worth(a) >= 0 && worth(b) >= 0 ==> match decoded(t) {
            Ok(s) => decoded(seq![0x25u8, a, b] + t) == Ok::<Seq<u8>, Seq<char>>(
                seq![(16 * worth(a) + worth(b)) as u8] + s,
            ),
            Err(_) => decoded(seq![0x25u8, a, b] + t) is Err,
        },
        worth(a) < 0 || worth(b) < 0 ==> decoded(seq![0x25u8, a, b] + t) is Err,
        decoded(seq![0x25u8]) is Err,
        decoded(seq![0x25u8, a]) is Err,
{
    let one = seq![a] + t;
    assert(one.skip(1) =~= t);
    let three = seq![0x25u8, a, b] + t;
    assert(three[0] == 0x25 && three[1] == a && three[2] == b);
    assert(three.skip(3) =~= t);
    if worth(a) >= 0 && worth(b) >= 0 {
        crate::percent::lemma_two_ascii_bytes(a, b);
    }
}

// ---------------------------------------------------------------------------
// Pieces
// ---------------------------------------------------------------------------

/// The byte does not occur.
pub open spec fn without(s: Seq<u8>, b: u8) -> bool {
    forall|i: int| 0 <= i < s.len() ==> #[trigger] s[i] != b
}

/// A text is parted at the first delimiter: what stands before it holds none, and the two
/// parts make up the text again. It is not parted exactly where it holds none.
pub proof fn a_text_is_parted_at_the_first_delimiter(s: Seq<u8>, b: u8)
    ensures
        match split_once(s, b) {
            Some((x, y)) => s == x + seq![b] + y && without(x, b),
            None => without(s, b),
        },
{
    crate::text::lemma_find(s, b);
    let i = crate::text::find(s, b);
    if i < s.len() {
        assert(s =~= s.take(i) + seq![b] + s.skip(i + 1));
    } else {
        assert(s.take(i) =~= s);
    }
}

/// The pieces of a text hold no delimiter, and with one between any two they make up the
/// text again.
pub proof fn the_pieces_make_up_the_text(s: Seq<u8>, b: u8)
    ensures
        split(s, b).len() > 0,
        forall|i: int| 0 <= i < split(s, b).len() ==> without(#[trigger] split(s, b)[i], b),
        split(s, b).len() == 1 ==> s == split(s, b)[0],
        split(s, b).len() > 1 ==> exists|rest: Seq<u8>|
            s == split(s, b)[0] + seq![b] + rest && #[trigger] split(rest, b) == split(s, b).skip(
                1,
            ),
    decreases s.len(),
{
    crate::text::lemma_find(s, b);
    let i = crate::text::find(s, b);
    if i < s.len() {
        let rest = s.skip(i + 1);
        the_pieces_make_up_the_text(rest, b);
        assert(s =~= s.take(i) + seq![b] + rest);
        assert(split(s, b).skip(1) =~= split(rest, b));
        assert forall|k: int| 0 <= k < split(s, b).len() implies without(
            #[trigger] split(s, b)[k],
            b,
        ) by {
            if k > 0 {
                assert(split(s, b)[k] == split(rest, b)[k - 1]);
            }
        }
    } else {
        assert(s.take(i) =~= s);
    }
}

// ---------------------------------------------------------------------------
// Words
// ---------------------------------------------------------------------------

/// The word of each container format.
pub proof fn words_of_containers(v: ContainerFormat, t: &'static str)
    requires
        call_ensures(container_token, (v,), t),
    ensures
        t@ == match v {
            ContainerFormat::Ewf => "ewf"@,
            ContainerFormat::Vmdk => "vmdk"@,
            ContainerFormat::Vhdx => "vhdx"@,
            ContainerFormat::Vhd => "vhd"@,
            ContainerFormat::Qcow2 => "qcow2"@,
            ContainerFormat::Dmg => "dmg"@,
            ContainerFormat::Aff4 => "aff4"@,
            ContainerFormat::Ad1 => "ad1"@,
            ContainerFormat::Dar => "dar"@,
            ContainerFormat::Raw => "raw"@,
            ContainerFormat::Auto => "auto"@,
        },
{
}

/// The word of each volume scheme.
pub proof fn words_of_volumes(v: VolumeScheme, t: &'static str)
    requires
        call_ensures(volume_token, (v,), t),
    ensures
        t@ == match v {
            VolumeScheme::Mbr => "mbr"@,
            VolumeScheme::Gpt => "gpt"@,
            VolumeScheme::Apm => "apm"@,
            VolumeScheme::Vss => "vss"@,
            VolumeScheme::ApfsContainer => "apfscontainer"@,
            VolumeScheme::Lvm => "lvm"@,
        },
{
}

/// The word of each scheme of volume encryption.
pub proof fn words_of_crypto(v: CryptoScheme, t: &'static str)
    requires
        call_ensures(crypto_token, (v,), t),
    ensures
        t@ == match v {
            CryptoScheme::Bitlocker => "bitlocker"@,
            CryptoScheme::Luks1 => "luks1"@,
            CryptoScheme::Luks2 => "luks2"@,
            CryptoScheme::FileVault => "filevault"@,
            CryptoScheme::ApfsEncrypted => "apfsencrypted"@,
        },
{
}

/// The word of each encryption scheme.
pub proof fn words_of_encryption(v: EncryptionScheme, t: &'static str)
    requires
        call_ensures(encryption_token, (v,), t),
    ensures
        t@ == match v {
            EncryptionScheme::Bitlocker => "bitlocker"@,
            EncryptionScheme::Luks1 => "luks1"@,
            EncryptionScheme::Luks2 => "luks2"@,
            EncryptionScheme::FileVault => "filevault"@,
            EncryptionScheme::ApfsEncrypted => "apfsencrypted"@,
            EncryptionScheme::VeraCrypt => "veracrypt"@,
        },
{
}

/// The word of each kind of filesystem.
pub proof fn words_of_filesystems(v: FsKind, t: &'static str)
    requires
        call_ensures(fs_token, (v,), t),
    ensures
        t@ == match v {
            FsKind::Ntfs => "ntfs"@,
            FsKind::Ext => "ext"@,
            FsKind::HfsPlus => "hfsplus"@,
            FsKind::Apfs => "apfs"@,
            FsKind::Iso9660 => "iso9660"@,
            FsKind::Udf => "udf"@,
            FsKind::Fat => "fat"@,
            FsKind::ExFat => "exfat"@,
            FsKind::Xfs => "xfs"@,
            FsKind::Btrfs => "btrfs"@,
            FsKind::Zfs => "zfs"@,
            FsKind::Ufs => "ufs"@,
            FsKind::Refs => "refs"@,
            FsKind::Zip => "zip"@,
            FsKind::Ad1 => "ad1"@,
            FsKind::Dar => "dar"@,
            FsKind::Other => "other"@,
        },
{
}

// ---------------------------------------------------------------------------
// The text of a layer
// ---------------------------------------------------------------------------

/// A word, a dot and a number.
pub open spec fn is_dotted(t: Seq<u8>, head: Seq<char>, a: int) -> bool {
    exists|x: Seq<u8>| #[trigger] numeral(x, a) && t == word(head) + seq![0x2eu8] + x
}

/// A word and two numbers, with dots between.
pub open spec fn is_dotted2(t: Seq<u8>, head: Seq<char>, a: int, b: int) -> bool {
    exists|x: Seq<u8>, y: Seq<u8>|
        {
            &&& #[trigger] numeral(x, a)
            &&& #[trigger] numeral(y, b)
            &&& t == word(head) + seq![0x2eu8] + x + seq![0x2eu8] + y
        }
}

/// The text of a file id: its word and its fields, in their order.
pub open spec fn is_file_id_text(t: Seq<u8>, id: FileId) -> bool {
    match id {
        FileId::NtfsRef { entry, seq } => is_dotted2(t, "ntfsref"@, entry as int, seq as int),
        FileId::ExtInode { ino, gen } => is_dotted2(t, "extinode"@, ino as int, gen as int),
        FileId::ApfsOid { oid, xid } => is_dotted2(t, "apfsoid"@, oid as int, xid as int),
        FileId::FatDirEntry { cluster, index } => is_dotted2(
            t,
            "fatdirentry"@,
            cluster as int,
            index as int,
        ),
        FileId::IsoExtent { block } => is_dotted(t, "isoextent"@, block as int),
        FileId::Opaque(n) => is_dotted(t, "opaque"@, n as int),
        _ => true,
    }
}

/// The text of a stream id.
pub open spec fn is_stream_text(t: Seq<u8>, id: StreamId) -> bool {
    match id {
        StreamId::Default => t == word("default"@),
        StreamId::ResourceFork => t == word("resourcefork"@),
        StreamId::Slack => t == word("slack"@),
        StreamId::Named(n) => is_dotted(t, "named"@, n as int),
        StreamId::Xattr(n) => is_dotted(t, "xattr"@, n as int),
    }
}

/// A slash before the escapes of each component.
pub open spec fn slash_each(cs: Seq<Seq<u8>>) -> Seq<u8>
    decreases cs.len(),
{
    if cs.len() == 0 {
        Seq::empty()
    } else {
        slash_each(cs.drop_last()) + seq![0x2fu8] + escapes(cs.last())
    }
}

/// The text of a node address: `p` and the path, `f/` and the file id, or `b/`, the file id
/// and the path.
pub open spec fn is_addr_text(t: Seq<u8>, a: AddrModel) -> bool {
    match a {
        AddrModel::Path(cs) => t == word("p"@) + slash_each(cs),
        AddrModel::File(id) => exists|x: Seq<u8>| #[trigger]
            is_file_id_text(x, id) && t == word("f/"@) + x,
        AddrModel::Both { path, id } => exists|x: Seq<u8>| #[trigger]
            is_file_id_text(x, id) && t == word("b/"@) + x + slash_each(path),
    }
}

/// The text of a layer.
pub open spec fn is_layer_text(t: Seq<u8>, l: LayerModel) -> bool {
    match l {
        LayerModel::Os { path } => t == word("os:"@) + escapes(path),
        LayerModel::Range { start, len } => exists|x: Seq<u8>, y: Seq<u8>|
            {
                &&& #[trigger] numeral(x, start as int)
                &&& #[trigger] numeral(y, len as int)
                &&& t == word("range:"@) + x + seq![0x2cu8] + y
            },
        LayerModel::Container { format } => t == word("container:"@) + word(
            container_name(format),
        ),
        LayerModel::Volume { scheme, index, guid } => exists|x: Seq<u8>|
            {
                &&& #[trigger] numeral(x, index as int)
                &&& {
                    let short = word("volume:"@) + word(volume_name(scheme)) + seq![0x2cu8] + x;
                    match guid {
                        None => t == short,
                        Some(g) => exists|y: Seq<u8>| #[trigger]
                            hexed(y, g) && t == short + seq![0x2cu8] + y,
                    }
                }
            },
        LayerModel::Crypto { scheme } => t == word("crypto:"@) + word(crypto_name(scheme)),
        LayerModel::Encryption { scheme } => t == word("encryption:"@) + word(
            encryption_name(scheme),
        ),
        LayerModel::Archive { member } => match member {
            None => t == word("archive:"@),
            Some(i) => exists|x: Seq<u8>| #[trigger]
                numeral(x, i as int) && t == word("archive:"@) + x,
        },
        LayerModel::Snapshot { store } => match store {
            SnapshotRef::VssStore(i) => exists|x: Seq<u8>| #[trigger]
                numeral(x, i as int) && t == word("snapshot:vss,"@) + x,
            SnapshotRef::ApfsXid(n) => exists|x: Seq<u8>| #[trigger]
                numeral(x, n as int) && t == word("snapshot:apfs,"@) + x,
        },
        LayerModel::Fs { kind, at } => exists|x: Seq<u8>| #[trigger]
            is_addr_text(x, at) && t == word("fs:"@) + word(fs_name(kind)) + seq![0x2cu8] + x,
        LayerModel::Stream { id } => exists|x: Seq<u8>| #[trigger]
            is_stream_text(x, id) && t == word("stream:"@) + x,
    }
}

proof fn lemma_dotted(head: Seq<char>, a: nat)
    ensures
        is_dotted(dotted(head, a), head, a as int),
{
    a_number_is_written_as_its_numeral(a);
    assert(word(head) =~= ascii(head));
    assert(dotted(head, a) =~= word(head) + seq![0x2eu8] + decimal(a));
}

proof fn lemma_dotted2(head: Seq<char>, a: nat, b: nat)
    ensures
        is_dotted2(dotted2(head, a, b), head, a as int, b as int),
{
    a_number_is_written_as_its_numeral(a);
    a_number_is_written_as_its_numeral(b);
    assert(word(head) =~= ascii(head));
    assert(dotted2(head, a, b) =~= word(head) + seq![0x2eu8] + decimal(a) + seq![0x2eu8] + decimal(
        b,
    ));
}

pub(crate) proof fn lemma_file_id(id: FileId)
    ensures
        is_file_id_text(file_id_text(id), id),
{
    match id {
        FileId::NtfsRef { entry, seq } => lemma_dotted2("ntfsref"@, entry as nat, seq as nat),
        FileId::ExtInode { ino, gen } => lemma_dotted2("extinode"@, ino as nat, gen as nat),
        FileId::ApfsOid { oid, xid } => lemma_dotted2("apfsoid"@, oid as nat, xid as nat),
        FileId::FatDirEntry { cluster, index } => lemma_dotted2(
            "fatdirentry"@,
            cluster as nat,
            index as nat,
        ),
        FileId::IsoExtent { block } => lemma_dotted("isoextent"@, block as nat),
        FileId::Opaque(n) => lemma_dotted("opaque"@, n as nat),
        _ => {},
    }
}

pub(crate) proof fn lemma_stream(id: StreamId)
    ensures
        is_stream_text(stream_text(id), id),
{
    match id {
        StreamId::Default => assert(word("default"@) =~= ascii("default"@)),
        StreamId::ResourceFork => assert(word("resourcefork"@) =~= ascii("resourcefork"@)),
        StreamId::Slack => assert(word("slack"@) =~= ascii("slack"@)),
        StreamId::Named(n) => lemma_dotted("named"@, n as nat),
        StreamId::Xattr(n) => lemma_dotted("xattr"@, n as nat),
    }
}

proof fn lemma_path(cs: Seq<Seq<u8>>)
    ensures
        path_text(cs) == slash_each(cs),
    decreases cs.len(),
{
    if cs.len() > 0 {
        let front = cs.drop_last();
        lemma_path(front);
        encoding_escapes_each_byte(cs.last());
        let parts = encoded_components(front);
        assert(encoded_components(cs) =~= parts.push(encoded(cs.last())));
        if front.len() > 0 {
            crate::text::lemma_joined_push(parts, '/' as u8, encoded(cs.last()));
        } else {
            assert(encoded_components(cs) =~= seq![encoded(cs.last())]);
        }
        assert(path_text(cs) =~= slash_each(cs));
    }
}

proof fn lemma_addr(a: AddrModel)
    ensures
        is_addr_text(addr_text(a), a),
{
    reveal_strlit("p");
    reveal_strlit("f/");
    reveal_strlit("b/");
    match a {
        AddrModel::Path(cs) => {
            lemma_path(cs);
            assert(addr_text(a) =~= word("p"@) + slash_each(cs));
        },
        AddrModel::File(id) => {
            lemma_file_id(id);
            assert(addr_text(a) =~= word("f/"@) + file_id_text(id));
        },
        AddrModel::Both { path, id } => {
            lemma_file_id(id);
            lemma_path(path);
            assert(addr_text(a) =~= word("b/"@) + file_id_text(id) + slash_each(path));
        },
    }
}

proof fn lemma_tag(name: Seq<char>, tagged: Seq<char>, body: Seq<u8>)
    requires
        tagged == name.push(':'),
    ensures
        ascii(name).push(':' as u8) + body == word(tagged) + body,
{
    assert(ascii(name).push(':' as u8) =~= word(tagged));
}

/// The text of a layer is its tag and its fields, each number as its numeral, each byte of
/// a name escaped, in the order of the fields.
pub proof fn a_layer_is_written_field_by_field(l: LayerModel)
    ensures
        is_layer_text(layer_text(l), l),
{
    let t = layer_text(l);
    let body = body_text(l);
    match l {
        LayerModel::Os { path } => {
            reveal_strlit("os");
            reveal_strlit("os:");
            assert("os:"@ =~= "os"@.push(':'));
            lemma_tag("os"@, "os:"@, body);
            encoding_escapes_each_byte(path);
        },
        LayerModel::Range { start, len } => {
            reveal_strlit("range");
            reveal_strlit("range:");
            assert("range:"@ =~= "range"@.push(':'));
            lemma_tag("range"@, "range:"@, body);
            a_number_is_written_as_its_numeral(start as nat);
            a_number_is_written_as_its_numeral(len as nat);
            assert(t =~= word("range:"@) + decimal(start as nat) + seq![0x2cu8] + decimal(
                len as nat,
            ));
        },
        LayerModel::Container { format } => {
            reveal_strlit("container");
            reveal_strlit("container:");
            assert("container:"@ =~= "container"@.push(':'));
            lemma_tag("container"@, "container:"@, body);
            assert(word(container_name(format)) =~= body);
        },
        LayerModel::Volume { scheme, index, guid } => {
            reveal_strlit("volume");
            reveal_strlit("volume:");
            assert("volume:"@ =~= "volume"@.push(':'));
            lemma_tag("volume"@, "volume:"@, body);
            a_number_is_written_as_its_numeral(index as nat);
            let x = decimal(index as nat);
            assert(word(volume_name(scheme)) =~= ascii(volume_name(scheme)));
            let short = word("volume:"@) + word(volume_name(scheme)) + seq![0x2cu8] + x;
            match guid {
                None => assert(t =~= short),
                Some(g) => {
                    bytes_are_written_in_hexadecimal(g);
                    assert(t =~= short + seq![0x2cu8] + hex_text(g));
                },
            }
            assert(numeral(x, index as int));
        },
        LayerModel::Crypto { scheme } => {
            reveal_strlit("crypto");
            reveal_strlit("crypto:");
            assert("crypto:"@ =~= "crypto"@.push(':'));
            lemma_tag("crypto"@, "crypto:"@, body);
            assert(word(crypto_name(scheme)) =~= body);
        },
        LayerModel::Encryption { scheme } => {
            reveal_strlit("encryption");
            reveal_strlit("encryption:");
            assert("encryption:"@ =~= "encryption"@.push(':'));
            lemma_tag("encryption"@, "encryption:"@, body);
            assert(word(encryption_name(scheme)) =~= body);
        },
        LayerModel::Archive { member } => {
            reveal_strlit("archive");
            reveal_strlit("archive:");
            assert("archive:"@ =~= "archive"@.push(':'));
            lemma_tag("archive"@, "archive:"@, body);
            match member {
                None => assert(t =~= word("archive:"@)),
                Some(i) => a_number_is_written_as_its_numeral(i as nat),
            }
        },
        LayerModel::Snapshot { store } => {
            reveal_strlit("snapshot");
            reveal_strlit("vss");
            reveal_strlit("apfs");
            reveal_strlit("snapshot:vss,");
            reveal_strlit("snapshot:apfs,");
            match store {
                SnapshotRef::VssStore(i) => {
                    a_number_is_written_as_its_numeral(i as nat);
                    assert(t =~= word("snapshot:vss,"@) + decimal(i as nat));
                },
                SnapshotRef::ApfsXid(n) => {
                    a_number_is_written_as_its_numeral(n as nat);
                    assert(t =~= word("snapshot:apfs,"@) + decimal(n as nat));
                },
            }
        },
        LayerModel::Fs { kind, at } => {
            reveal_strlit("fs");
            reveal_strlit("fs:");
            assert("fs:"@ =~= "fs"@.push(':'));
            lemma_tag("fs"@, "fs:"@, body);
            lemma_addr(at);
            assert(word(fs_name(kind)) =~= ascii(fs_name(kind)));
            assert(t =~= word("fs:"@) + word(fs_name(kind)) + seq![0x2cu8] + addr_text(at));
        },
        LayerModel::Stream { id } => {
            reveal_strlit("stream");
            reveal_strlit("stream:");
            assert("stream:"@ =~= "stream"@.push(':'));
            lemma_tag("stream"@, "stream:"@, body);
            lemma_stream(id);
        },
    }
}

// ---------------------------------------------------------------------------
// The text of a locator
// ---------------------------------------------------------------------------

/// The text of a locator that stands alone is `fvfs:` and the text of its layer.
pub proof fn a_root_is_written_as_its_layer(p: PathSpec, s: String)
    requires
        call_ensures(PathSpec::to_uri, (&p,), s),
        p.parent is None,
    ensures
        exists|t: Seq<u8>| #[trigger]
            is_layer_text(t, p.layer@) && encode_utf8(s@) == word("fvfs:"@) + t,
{
    let l = p.layer@;
    a_layer_is_written_field_by_field(l);
    assert(p@ =~= seq![l]);
    assert(layer_texts(p@) =~= seq![layer_text(l)]);
    assert(word("fvfs:"@) =~= ascii("fvfs:"@));
    assert(encode_utf8(s@) =~= word("fvfs:"@) + layer_text(l));
}

/// The text of a locator is that of its parent, a bar, and the text of its own layer.
pub proof fn a_locator_is_written_after_its_parent(p: PathSpec, q: PathSpec, s: String, t: String)
    requires
        p.parent == Some(Box::new(q)),
        call_ensures(PathSpec::to_uri, (&q,), s),
        call_ensures(PathSpec::to_uri, (&p,), t),
    ensures
        exists|x: Seq<u8>| #[trigger]
            is_layer_text(x, p.layer@) && encode_utf8(t@) == encode_utf8(s@) + seq![0x7cu8] + x,
{
    let l = p.layer@;
    a_layer_is_written_field_by_field(l);
    crate::pathspec::lemma_chain_nonempty(q);
    assert(p@ =~= q@.push(l));
    let parts = layer_texts(q@);
    assert(layer_texts(p@) =~= parts.push(layer_text(l)));
    crate::text::lemma_joined_push(parts, '|' as u8, layer_text(l));
    assert(encode_utf8(t@) =~= encode_utf8(s@) + seq![0x7cu8] + layer_text(l));
}

// ---------------------------------------------------------------------------
// The layers of a locator
// ---------------------------------------------------------------------------

/// A locator that stands alone has one layer, its own.
pub proof fn a_root_has_its_own_layer(p: &PathSpec, layers: Vec<&Layer>, n: usize)
    requires
        call_ensures(PathSpec::layers, (p,), layers),
        call_ensures(PathSpec::depth, (p,), n),
        p.parent is None,
    ensures
        n == 1,
        layers@.len() == 1,
        layers@[0]@ == p.layer@,
{
    assert(p@ =~= seq![p.layer@]);
}

/// The layers of a locator are those of its parent and then its own; it is one deeper, and
/// has the same base.
pub proof fn layers_follow_the_parents(
    p: &PathSpec,
    q: PathSpec,
    layers: Vec<&Layer>,
    above: Vec<&Layer>,
    n: usize,
    m: usize,
    base: &PathSpec,
    base_above: &PathSpec,
)
    requires
        p.parent == Some(Box::new(q)),
        call_ensures(PathSpec::layers, (p,), layers),
        call_ensures(PathSpec::layers, (&q,), above),
        call_ensures(PathSpec::depth, (p,), n),
        call_ensures(PathSpec::depth, (&q,), m),
        call_ensures(PathSpec::base, (p,), base),
        call_ensures(PathSpec::base, (&q,), base_above),
    ensures
        n == m + 1,
        layers@.len() == above@.len() + 1,
        layers@.last()@ == p.layer@,
        forall|i: int| 0 <= i < above@.len() ==> (#[trigger] layers@[i])@ == above@[i]@,
        base.parent is None,
        base.layer@ == base_above.layer@,
{
    crate::pathspec::lemma_chain_nonempty(q);
    assert(p@ =~= q@.push(p.layer@));
    assert(base@ =~= seq![base.layer@]);
    assert(base_above@ =~= seq![base_above.layer@]);
    assert(base@[0] == base_above@[0]);
}

} // verus!

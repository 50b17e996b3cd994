//! The names that container formats, volume schemes, encryption schemes and
//! filesystem kinds have in a locator's text form.
//!
//! Each vocabulary is a pair: the name of a value, and the value of a name. A name
//! is made of lower-case letters and digits only, so no delimiter of the text form
//! occurs in it, and reading a name gives back the value that it was written for.

use vstd::prelude::*;
use vstd::utf8::is_ascii_chars;

use crate::crypto::CryptoScheme;
use crate::encryption::EncryptionScheme;
use crate::fs::FsKind;
use crate::registry::ContainerFormat;
use crate::text::{all_ascii, ascii, lacks, literal, same_bytes};
use crate::volume::VolumeScheme;

verus! {

broadcast use vstd::seq::group_seq_axioms;

/// A text of lower-case letters and digits, at least one.
pub open spec fn is_name(s: Seq<char>) -> bool {
    &&& s.len() > 0
    &&& forall|i: int|
        0 <= i < s.len() ==> ('a' <= #[trigger] s[i] <= 'z' || '0' <= s[i] <= '9')
}

/// A text that begins with two ASCII characters other than `fv`.
pub open spec fn plain_head(s: Seq<char>) -> bool {
    &&& s.len() >= 2
    &&& '\0' <= s[0] <= '\u{7f}'
    &&& '\0' <= s[1] <= '\u{7f}'
    &&& !(s[0] == 'f' && s[1] == 'v')
}

/// A name is ASCII and holds no delimiter.
pub proof fn lemma_name(s: Seq<char>)
    requires
        is_name(s),
    ensures
        is_ascii_chars(s),
        all_ascii(ascii(s)),
        ascii(s).len() == s.len(),
        lacks(ascii(s), ',' as u8),
        lacks(ascii(s), '|' as u8),
        lacks(ascii(s), ':' as u8),
        lacks(ascii(s), '/' as u8),
        lacks(ascii(s), '.' as u8),
{
    assert forall|i: int| 0 <= i < s.len() implies '\0' <= #[trigger] s[i] <= '\u{7f}' by {}
    assert forall|i: int| 0 <= i < s.len() implies 48 <= #[trigger] ascii(s)[i] <= 122
        && ascii(s)[i] != 58 by {
        assert('a' <= s[i] <= 'z' || '0' <= s[i] <= '9');
    }
}

/// True when the bytes spell the name.
pub fn is_token(t: &[u8], name: &'static str) -> (r: bool)
    requires
        is_name(name@),
    ensures
        r == (t@ == ascii(name@)),
{
    proof {
        lemma_name(name@);
    }
    same_bytes(t, literal(name))
}

/// The length and the first two characters of a name: enough to tell most from the
/// others.
spec fn marked(t: Seq<u8>, n: int, a: char, b: char) -> bool {
    t.len() == n && t[0] == a as u8 && t[1] == b as u8
}

/// The name of a container format.
pub open spec fn container_name(v: ContainerFormat) -> Seq<char> {
    match v {
        ContainerFormat::Ewf => "ewf"@,
        ContainerFormat::Vmdk => "vmdk"@,
        ContainerFormat::Vhdx => "vhdx"@,
        ContainerFormat::Vhd => "vhd"@,
        ContainerFormat::Qcow2 => "qcow2"@,
        ContainerFormat::Dmg => "dmg"@,
        ContainerFormat::Aff4 => "aff4"@,
        ContainerFormat::Ad1 => "ad1"@,
        ContainerFormat::Dar => "dar"@,
        ContainerFormat::Raw => "raw"@,
        ContainerFormat::Auto => "auto"@,
    }
}

/// The container format of a name.
pub open spec fn container_named(t: Seq<u8>) -> Option<ContainerFormat> {
    if t == ascii("ewf"@) {
        Some(ContainerFormat::Ewf)
    } else if t == ascii("vmdk"@) {
        Some(ContainerFormat::Vmdk)
    } else if t == ascii("vhdx"@) {
        Some(ContainerFormat::Vhdx)
    } else if t == ascii("vhd"@) {
        Some(ContainerFormat::Vhd)
    } else if t == ascii("qcow2"@) {
        Some(ContainerFormat::Qcow2)
    } else if t == ascii("dmg"@) {
        Some(ContainerFormat::Dmg)
    } else if t == ascii("aff4"@) {
        Some(ContainerFormat::Aff4)
    } else if t == ascii("ad1"@) {
        Some(ContainerFormat::Ad1)
    } else if t == ascii("dar"@) {
        Some(ContainerFormat::Dar)
    } else if t == ascii("raw"@) {
        Some(ContainerFormat::Raw)
    } else if t == ascii("auto"@) {
        Some(ContainerFormat::Auto)
    } else {
        None
    }
}

proof fn lemma_container_literals()
    ensures
        is_name("ewf"@),
        is_name("vmdk"@),
        is_name("vhdx"@),
        is_name("vhd"@),
        is_name("qcow2"@),
        is_name("dmg"@),
        is_name("aff4"@),
        is_name("ad1"@),
        is_name("dar"@),
        is_name("raw"@),
        is_name("auto"@),
{
    reveal_strlit("ewf");
    reveal_strlit("vmdk");
    reveal_strlit("vhdx");
    reveal_strlit("vhd");
    reveal_strlit("qcow2");
    reveal_strlit("dmg");
    reveal_strlit("aff4");
    reveal_strlit("ad1");
    reveal_strlit("dar");
    reveal_strlit("raw");
    reveal_strlit("auto");
}

/// The name of every container format is a name, and reads back as it.
pub proof fn lemma_container_name(v: ContainerFormat)
    ensures
        is_name(container_name(v)),
        container_named(ascii(container_name(v))) == Some(v),
{
    reveal_strlit("ewf");
    reveal_strlit("vmdk");
    reveal_strlit("vhdx");
    reveal_strlit("vhd");
    reveal_strlit("qcow2");
    reveal_strlit("dmg");
    reveal_strlit("aff4");
    reveal_strlit("ad1");
    reveal_strlit("dar");
    reveal_strlit("raw");
    reveal_strlit("auto");
    lemma_container_literals();
    assert(marked(ascii("ewf"@), 3, 'e', 'w'));
    assert(marked(ascii("vmdk"@), 4, 'v', 'm'));
    assert(marked(ascii("vhdx"@), 4, 'v', 'h'));
    assert(marked(ascii("vhd"@), 3, 'v', 'h'));
    assert(marked(ascii("qcow2"@), 5, 'q', 'c'));
    assert(marked(ascii("dmg"@), 3, 'd', 'm'));
    assert(marked(ascii("aff4"@), 4, 'a', 'f'));
    assert(marked(ascii("ad1"@), 3, 'a', 'd'));
    assert(marked(ascii("dar"@), 3, 'd', 'a'));
    assert(marked(ascii("raw"@), 3, 'r', 'a'));
    assert(marked(ascii("auto"@), 4, 'a', 'u'));
}

/// No name of a container format starts like the scheme of the canonical text.
pub(crate) proof fn lemma_container_head(v: ContainerFormat)
    ensures
        plain_head(container_name(v)),
{
    reveal_strlit("ewf");
    reveal_strlit("vmdk");
    reveal_strlit("vhdx");
    reveal_strlit("vhd");
    reveal_strlit("qcow2");
    reveal_strlit("dmg");
    reveal_strlit("aff4");
    reveal_strlit("ad1");
    reveal_strlit("dar");
    reveal_strlit("raw");
    reveal_strlit("auto");
}

/// The name of a container format.
pub fn container_token(v: ContainerFormat) -> (r: &'static str)
    ensures
        r@ == container_name(v),
{
    match v {
        ContainerFormat::Ewf => "ewf",
        ContainerFormat::Vmdk => "vmdk",
        ContainerFormat::Vhdx => "vhdx",
        ContainerFormat::Vhd => "vhd",
        ContainerFormat::Qcow2 => "qcow2",
        ContainerFormat::Dmg => "dmg",
        ContainerFormat::Aff4 => "aff4",
        ContainerFormat::Ad1 => "ad1",
        ContainerFormat::Dar => "dar",
        ContainerFormat::Raw => "raw",
        ContainerFormat::Auto => "auto",
    }
}

/// The container format that the bytes name.
pub fn parse_container(t: &[u8]) -> (r: Option<ContainerFormat>)
    ensures
        r == container_named(t@),
{
    proof {
        lemma_container_literals();
    }
    if is_token(t, "ewf") {
        Some(ContainerFormat::Ewf)
    } else if is_token(t, "vmdk") {
        Some(ContainerFormat::Vmdk)
    } else if is_token(t, "vhdx") {
        Some(ContainerFormat::Vhdx)
    } else if is_token(t, "vhd") {
        Some(ContainerFormat::Vhd)
    } else if is_token(t, "qcow2") {
        Some(ContainerFormat::Qcow2)
    } else if is_token(t, "dmg") {
        Some(ContainerFormat::Dmg)
    } else if is_token(t, "aff4") {
        Some(ContainerFormat::Aff4)
    } else if is_token(t, "ad1") {
        Some(ContainerFormat::Ad1)
    } else if is_token(t, "dar") {
        Some(ContainerFormat::Dar)
    } else if is_token(t, "raw") {
        Some(ContainerFormat::Raw)
    } else if is_token(t, "auto") {
        Some(ContainerFormat::Auto)
    } else {
        None
    }
}

/// The name of a volume scheme.
pub open spec fn volume_name(v: VolumeScheme) -> Seq<char> {
    match v {
        VolumeScheme::Mbr => "mbr"@,
        VolumeScheme::Gpt => "gpt"@,
        VolumeScheme::Apm => "apm"@,
        VolumeScheme::Vss => "vss"@,
        VolumeScheme::ApfsContainer => "apfscontainer"@,
        VolumeScheme::Lvm => "lvm"@,
    }
}

/// The volume scheme of a name.
pub open spec fn volume_named(t: Seq<u8>) -> Option<VolumeScheme> {
    if t == ascii("mbr"@) {
        Some(VolumeScheme::Mbr)
    } else if t == ascii("gpt"@) {
        Some(VolumeScheme::Gpt)
    } else if t == ascii("apm"@) {
        Some(VolumeScheme::Apm)
    } else if t == ascii("vss"@) {
        Some(VolumeScheme::Vss)
    } else if t == ascii("apfscontainer"@) {
        Some(VolumeScheme::ApfsContainer)
    } else if t == ascii("lvm"@) {
        Some(VolumeScheme::Lvm)
    } else {
        None
    }
}

proof fn lemma_volume_literals()
    ensures
        is_name("mbr"@),
        is_name("gpt"@),
        is_name("apm"@),
        is_name("vss"@),
        is_name("apfscontainer"@),
        is_name("lvm"@),
{
    reveal_strlit("mbr");
    reveal_strlit("gpt");
    reveal_strlit("apm");
    reveal_strlit("vss");
    reveal_strlit("apfscontainer");
    reveal_strlit("lvm");
}

/// The name of every volume scheme is a name, and reads back as it.
pub proof fn lemma_volume_name(v: VolumeScheme)
    ensures
        is_name(volume_name(v)),
        volume_named(ascii(volume_name(v))) == Some(v),
{
    reveal_strlit("mbr");
    reveal_strlit("gpt");
    reveal_strlit("apm");
    reveal_strlit("vss");
    reveal_strlit("apfscontainer");
    reveal_strlit("lvm");
    lemma_volume_literals();
    assert(marked(ascii("mbr"@), 3, 'm', 'b'));
    assert(marked(ascii("gpt"@), 3, 'g', 'p'));
    assert(marked(ascii("apm"@), 3, 'a', 'p'));
    assert(marked(ascii("vss"@), 3, 'v', 's'));
    assert(marked(ascii("apfscontainer"@), 13, 'a', 'p'));
    assert(marked(ascii("lvm"@), 3, 'l', 'v'));
}

/// No name of a volume scheme starts like the scheme of the canonical text.
pub(crate) proof fn lemma_volume_head(v: VolumeScheme)
    ensures
        plain_head(volume_name(v)),
{
    reveal_strlit("mbr");
    reveal_strlit("gpt");
    reveal_strlit("apm");
    reveal_strlit("vss");
    reveal_strlit("apfscontainer");
    reveal_strlit("lvm");
}

/// The name of a volume scheme.
pub fn volume_token(v: VolumeScheme) -> (r: &'static str)
    ensures
        r@ == volume_name(v),
{
    match v {
        VolumeScheme::Mbr => "mbr",
        VolumeScheme::Gpt => "gpt",
        VolumeScheme::Apm => "apm",
        VolumeScheme::Vss => "vss",
        VolumeScheme::ApfsContainer => "apfscontainer",
        VolumeScheme::Lvm => "lvm",
    }
}

/// The volume scheme that the bytes name.
pub fn parse_volume(t: &[u8]) -> (r: Option<VolumeScheme>)
    ensures
        r == volume_named(t@),
{
    proof {
        lemma_volume_literals();
    }
    if is_token(t, "mbr") {
        Some(VolumeScheme::Mbr)
    } else if is_token(t, "gpt") {
        Some(VolumeScheme::Gpt)
    } else if is_token(t, "apm") {
        Some(VolumeScheme::Apm)
    } else if is_token(t, "vss") {
        Some(VolumeScheme::Vss)
    } else if is_token(t, "apfscontainer") {
        Some(VolumeScheme::ApfsContainer)
    } else if is_token(t, "lvm") {
        Some(VolumeScheme::Lvm)
    } else {
        None
    }
}

/// The name of a crypto scheme.
pub open spec fn crypto_name(v: CryptoScheme) -> Seq<char> {
    match v {
        CryptoScheme::Bitlocker => "bitlocker"@,
        CryptoScheme::Luks1 => "luks1"@,
        CryptoScheme::Luks2 => "luks2"@,
        CryptoScheme::FileVault => "filevault"@,
        CryptoScheme::ApfsEncrypted => "apfsencrypted"@,
    }
}

/// The crypto scheme of a name.
pub open spec fn crypto_named(t: Seq<u8>) -> Option<CryptoScheme> {
    if t == ascii("bitlocker"@) {
        Some(CryptoScheme::Bitlocker)
    } else if t == ascii("luks1"@) {
        Some(CryptoScheme::Luks1)
    } else if t == ascii("luks2"@) {
        Some(CryptoScheme::Luks2)
    } else if t == ascii("filevault"@) {
        Some(CryptoScheme::FileVault)
    } else if t == ascii("apfsencrypted"@) {
        Some(CryptoScheme::ApfsEncrypted)
    } else {
        None
    }
}

proof fn lemma_crypto_literals()
    ensures
        is_name("bitlocker"@),
        is_name("luks1"@),
        is_name("luks2"@),
        is_name("filevault"@),
        is_name("apfsencrypted"@),
{
    reveal_strlit("bitlocker");
    reveal_strlit("luks1");
    reveal_strlit("luks2");
    reveal_strlit("filevault");
    reveal_strlit("apfsencrypted");
}

/// The name of every crypto scheme is a name, and reads back as it.
pub proof fn lemma_crypto_name(v: CryptoScheme)
    ensures
        is_name(crypto_name(v)),
        crypto_named(ascii(crypto_name(v))) == Some(v),
{
    reveal_strlit("bitlocker");
    reveal_strlit("luks1");
    reveal_strlit("luks2");
    reveal_strlit("filevault");
    reveal_strlit("apfsencrypted");
    lemma_crypto_literals();
    assert(marked(ascii("bitlocker"@), 9, 'b', 'i'));
    assert(marked(ascii("luks1"@), 5, 'l', 'u'));
    assert(ascii("luks1"@)[4] == '1' as u8);
    assert(marked(ascii("luks2"@), 5, 'l', 'u'));
    assert(ascii("luks2"@)[4] == '2' as u8);
    assert(marked(ascii("filevault"@), 9, 'f', 'i'));
    assert(marked(ascii("apfsencrypted"@), 13, 'a', 'p'));
}

/// No name of a crypto scheme starts like the scheme of the canonical text.
pub(crate) proof fn lemma_crypto_head(v: CryptoScheme)
    ensures
        plain_head(crypto_name(v)),
{
    reveal_strlit("bitlocker");
    reveal_strlit("luks1");
    reveal_strlit("luks2");
    reveal_strlit("filevault");
    reveal_strlit("apfsencrypted");
}

/// The name of a crypto scheme.
pub fn crypto_token(v: CryptoScheme) -> (r: &'static str)
    ensures
        r@ == crypto_name(v),
{
    match v {
        CryptoScheme::Bitlocker => "bitlocker",
        CryptoScheme::Luks1 => "luks1",
        CryptoScheme::Luks2 => "luks2",
        CryptoScheme::FileVault => "filevault",
        CryptoScheme::ApfsEncrypted => "apfsencrypted",
    }
}

/// The crypto scheme that the bytes name.
pub fn parse_crypto(t: &[u8]) -> (r: Option<CryptoScheme>)
    ensures
        r == crypto_named(t@),
{
    proof {
        lemma_crypto_literals();
    }
    if is_token(t, "bitlocker") {
        Some(CryptoScheme::Bitlocker)
    } else if is_token(t, "luks1") {
        Some(CryptoScheme::Luks1)
    } else if is_token(t, "luks2") {
        Some(CryptoScheme::Luks2)
    } else if is_token(t, "filevault") {
        Some(CryptoScheme::FileVault)
    } else if is_token(t, "apfsencrypted") {
        Some(CryptoScheme::ApfsEncrypted)
    } else {
        None
    }
}

/// The name of a encryption scheme.
pub open spec fn encryption_name(v: EncryptionScheme) -> Seq<char> {
    match v {
        EncryptionScheme::Bitlocker => "bitlocker"@,
        EncryptionScheme::Luks1 => "luks1"@,
        EncryptionScheme::Luks2 => "luks2"@,
        EncryptionScheme::FileVault => "filevault"@,
        EncryptionScheme::ApfsEncrypted => "apfsencrypted"@,
        EncryptionScheme::VeraCrypt => "veracrypt"@,
    }
}

/// The encryption scheme of a name.
pub open spec fn encryption_named(t: Seq<u8>) -> Option<EncryptionScheme> {
    if t == ascii("bitlocker"@) {
        Some(EncryptionScheme::Bitlocker)
    } else if t == ascii("luks1"@) {
        Some(EncryptionScheme::Luks1)
    } else if t == ascii("luks2"@) {
        Some(EncryptionScheme::Luks2)
    } else if t == ascii("filevault"@) {
        Some(EncryptionScheme::FileVault)
    } else if t == ascii("apfsencrypted"@) {
        Some(EncryptionScheme::ApfsEncrypted)
    } else if t == ascii("veracrypt"@) {
        Some(EncryptionScheme::VeraCrypt)
    } else {
        None
    }
}

proof fn lemma_encryption_literals()
    ensures
        is_name("bitlocker"@),
        is_name("luks1"@),
        is_name("luks2"@),
        is_name("filevault"@),
        is_name("apfsencrypted"@),
        is_name("veracrypt"@),
{
    reveal_strlit("bitlocker");
    reveal_strlit("luks1");
    reveal_strlit("luks2");
    reveal_strlit("filevault");
    reveal_strlit("apfsencrypted");
    reveal_strlit("veracrypt");
}

/// The name of every encryption scheme is a name, and reads back as it.
pub proof fn lemma_encryption_name(v: EncryptionScheme)
    ensures
        is_name(encryption_name(v)),
        encryption_named(ascii(encryption_name(v))) == Some(v),
{
    reveal_strlit("bitlocker");
    reveal_strlit("luks1");
    reveal_strlit("luks2");
    reveal_strlit("filevault");
    reveal_strlit("apfsencrypted");
    reveal_strlit("veracrypt");
    lemma_encryption_literals();
    assert(marked(ascii("bitlocker"@), 9, 'b', 'i'));
    assert(marked(ascii("luks1"@), 5, 'l', 'u'));
    assert(ascii("luks1"@)[4] == '1' as u8);
    assert(marked(ascii("luks2"@), 5, 'l', 'u'));
    assert(ascii("luks2"@)[4] == '2' as u8);
    assert(marked(ascii("filevault"@), 9, 'f', 'i'));
    assert(marked(ascii("apfsencrypted"@), 13, 'a', 'p'));
    assert(marked(ascii("veracrypt"@), 9, 'v', 'e'));
}

/// No name of a encryption scheme starts like the scheme of the canonical text.
pub(crate) proof fn lemma_encryption_head(v: EncryptionScheme)
    ensures
        plain_head(encryption_name(v)),
{
    reveal_strlit("bitlocker");
    reveal_strlit("luks1");
    reveal_strlit("luks2");
    reveal_strlit("filevault");
    reveal_strlit("apfsencrypted");
    reveal_strlit("veracrypt");
}

/// The name of a encryption scheme.
pub fn encryption_token(v: EncryptionScheme) -> (r: &'static str)
    ensures
        r@ == encryption_name(v),
{
    match v {
        EncryptionScheme::Bitlocker => "bitlocker",
        EncryptionScheme::Luks1 => "luks1",
        EncryptionScheme::Luks2 => "luks2",
        EncryptionScheme::FileVault => "filevault",
        EncryptionScheme::ApfsEncrypted => "apfsencrypted",
        EncryptionScheme::VeraCrypt => "veracrypt",
    }
}

/// The encryption scheme that the bytes name.
pub fn parse_encryption(t: &[u8]) -> (r: Option<EncryptionScheme>)
    ensures
        r == encryption_named(t@),
{
    proof {
        lemma_encryption_literals();
    }
    if is_token(t, "bitlocker") {
        Some(EncryptionScheme::Bitlocker)
    } else if is_token(t, "luks1") {
        Some(EncryptionScheme::Luks1)
    } else if is_token(t, "luks2") {
        Some(EncryptionScheme::Luks2)
    } else if is_token(t, "filevault") {
        Some(EncryptionScheme::FileVault)
    } else if is_token(t, "apfsencrypted") {
        Some(EncryptionScheme::ApfsEncrypted)
    } else if is_token(t, "veracrypt") {
        Some(EncryptionScheme::VeraCrypt)
    } else {
        None
    }
}

/// The name of a filesystem kind.
pub open spec fn fs_name(v: FsKind) -> Seq<char> {
    match v {
        FsKind::Ntfs => "ntfs"@,
        FsKind::Ext => "ext"@,
        FsKind::HfsPlus => "hfsplus"@,
        FsKind::Apfs => "apfs"@,
        FsKind::Iso9660 => "iso9660"@,
        FsKind::Udf => "udf"@,
        FsKind::Fat => "fat"@,
        FsKind::ExFat => "exfat"@,
        FsKind::Xfs => "xfs"@,
        FsKind::Btrfs => "btrfs"@,
        FsKind::Zfs => "zfs"@,
        FsKind::Ufs => "ufs"@,
        FsKind::Refs => "refs"@,
        FsKind::Zip => "zip"@,
        FsKind::Ad1 => "ad1"@,
        FsKind::Dar => "dar"@,
        FsKind::Other => "other"@,
    }
}

/// The filesystem kind of a name.
pub open spec fn fs_named(t: Seq<u8>) -> Option<FsKind> {
    if t == ascii("ntfs"@) {
        Some(FsKind::Ntfs)
    } else if t == ascii("ext"@) {
        Some(FsKind::Ext)
    } else if t == ascii("hfsplus"@) {
        Some(FsKind::HfsPlus)
    } else if t == ascii("apfs"@) {
        Some(FsKind::Apfs)
    } else if t == ascii("iso9660"@) {
        Some(FsKind::Iso9660)
    } else if t == ascii("udf"@) {
        Some(FsKind::Udf)
    } else if t == ascii("fat"@) {
        Some(FsKind::Fat)
    } else if t == ascii("exfat"@) {
        Some(FsKind::ExFat)
    } else if t == ascii("xfs"@) {
        Some(FsKind::Xfs)
    } else if t == ascii("btrfs"@) {
        Some(FsKind::Btrfs)
    } else if t == ascii("zfs"@) {
        Some(FsKind::Zfs)
    } else if t == ascii("ufs"@) {
        Some(FsKind::Ufs)
    } else if t == ascii("refs"@) {
        Some(FsKind::Refs)
    } else if t == ascii("zip"@) {
        Some(FsKind::Zip)
    } else if t == ascii("ad1"@) {
        Some(FsKind::Ad1)
    } else if t == ascii("dar"@) {
        Some(FsKind::Dar)
    } else if t == ascii("other"@) {
        Some(FsKind::Other)
    } else {
        None
    }
}

proof fn lemma_fs_literals()
    ensures
        is_name("ntfs"@),
        is_name("ext"@),
        is_name("hfsplus"@),
        is_name("apfs"@),
        is_name("iso9660"@),
        is_name("udf"@),
        is_name("fat"@),
        is_name("exfat"@),
        is_name("xfs"@),
        is_name("btrfs"@),
        is_name("zfs"@),
        is_name("ufs"@),
        is_name("refs"@),
        is_name("zip"@),
        is_name("ad1"@),
        is_name("dar"@),
        is_name("other"@),
{
    reveal_strlit("ntfs");
    reveal_strlit("ext");
    reveal_strlit("hfsplus");
    reveal_strlit("apfs");
    reveal_strlit("iso9660");
    reveal_strlit("udf");
    reveal_strlit("fat");
    reveal_strlit("exfat");
    reveal_strlit("xfs");
    reveal_strlit("btrfs");
    reveal_strlit("zfs");
    reveal_strlit("ufs");
    reveal_strlit("refs");
    reveal_strlit("zip");
    reveal_strlit("ad1");
    reveal_strlit("dar");
    reveal_strlit("other");
}

/// The name of every filesystem kind is a name, and reads back as it.
pub proof fn lemma_fs_name(v: FsKind)
    ensures
        is_name(fs_name(v)),
        fs_named(ascii(fs_name(v))) == Some(v),
{
    reveal_strlit("ntfs");
    reveal_strlit("ext");
    reveal_strlit("hfsplus");
    reveal_strlit("apfs");
    reveal_strlit("iso9660");
    reveal_strlit("udf");
    reveal_strlit("fat");
    reveal_strlit("exfat");
    reveal_strlit("xfs");
    reveal_strlit("btrfs");
    reveal_strlit("zfs");
    reveal_strlit("ufs");
    reveal_strlit("refs");
    reveal_strlit("zip");
    reveal_strlit("ad1");
    reveal_strlit("dar");
    reveal_strlit("other");
    lemma_fs_literals();
    assert(marked(ascii("ntfs"@), 4, 'n', 't'));
    assert(marked(ascii("ext"@), 3, 'e', 'x'));
    assert(marked(ascii("hfsplus"@), 7, 'h', 'f'));
    assert(marked(ascii("apfs"@), 4, 'a', 'p'));
    assert(marked(ascii("iso9660"@), 7, 'i', 's'));
    assert(marked(ascii("udf"@), 3, 'u', 'd'));
    assert(marked(ascii("fat"@), 3, 'f', 'a'));
    assert(marked(ascii("exfat"@), 5, 'e', 'x'));
    assert(marked(ascii("xfs"@), 3, 'x', 'f'));
    assert(marked(ascii("btrfs"@), 5, 'b', 't'));
    assert(marked(ascii("zfs"@), 3, 'z', 'f'));
    assert(marked(ascii("ufs"@), 3, 'u', 'f'));
    assert(marked(ascii("refs"@), 4, 'r', 'e'));
    assert(marked(ascii("zip"@), 3, 'z', 'i'));
    assert(marked(ascii("ad1"@), 3, 'a', 'd'));
    assert(marked(ascii("dar"@), 3, 'd', 'a'));
    assert(marked(ascii("other"@), 5, 'o', 't'));
}

/// No name of a filesystem kind starts like the scheme of the canonical text.
pub(crate) proof fn lemma_fs_head(v: FsKind)
    ensures
        plain_head(fs_name(v)),
{
    reveal_strlit("ntfs");
    reveal_strlit("ext");
    reveal_strlit("hfsplus");
    reveal_strlit("apfs");
    reveal_strlit("iso9660");
    reveal_strlit("udf");
    reveal_strlit("fat");
    reveal_strlit("exfat");
    reveal_strlit("xfs");
    reveal_strlit("btrfs");
    reveal_strlit("zfs");
    reveal_strlit("ufs");
    reveal_strlit("refs");
    reveal_strlit("zip");
    reveal_strlit("ad1");
    reveal_strlit("dar");
    reveal_strlit("other");
}

/// The name of a filesystem kind.
pub fn fs_token(v: FsKind) -> (r: &'static str)
    ensures
        r@ == fs_name(v),
{
    match v {
        FsKind::Ntfs => "ntfs",
        FsKind::Ext => "ext",
        FsKind::HfsPlus => "hfsplus",
        FsKind::Apfs => "apfs",
        FsKind::Iso9660 => "iso9660",
        FsKind::Udf => "udf",
        FsKind::Fat => "fat",
        FsKind::ExFat => "exfat",
        FsKind::Xfs => "xfs",
        FsKind::Btrfs => "btrfs",
        FsKind::Zfs => "zfs",
        FsKind::Ufs => "ufs",
        FsKind::Refs => "refs",
        FsKind::Zip => "zip",
        FsKind::Ad1 => "ad1",
        FsKind::Dar => "dar",
        FsKind::Other => "other",
    }
}

/// The filesystem kind that the bytes name.
pub fn parse_fs(t: &[u8]) -> (r: Option<FsKind>)
    ensures
        r == fs_named(t@),
{
    proof {
        lemma_fs_literals();
    }
    if is_token(t, "ntfs") {
        Some(FsKind::Ntfs)
    } else if is_token(t, "ext") {
        Some(FsKind::Ext)
    } else if is_token(t, "hfsplus") {
        Some(FsKind::HfsPlus)
    } else if is_token(t, "apfs") {
        Some(FsKind::Apfs)
    } else if is_token(t, "iso9660") {
        Some(FsKind::Iso9660)
    } else if is_token(t, "udf") {
        Some(FsKind::Udf)
    } else if is_token(t, "fat") {
        Some(FsKind::Fat)
    } else if is_token(t, "exfat") {
        Some(FsKind::ExFat)
    } else if is_token(t, "xfs") {
        Some(FsKind::Xfs)
    } else if is_token(t, "btrfs") {
        Some(FsKind::Btrfs)
    } else if is_token(t, "zfs") {
        Some(FsKind::Zfs)
    } else if is_token(t, "ufs") {
        Some(FsKind::Ufs)
    } else if is_token(t, "refs") {
        Some(FsKind::Refs)
    } else if is_token(t, "zip") {
        Some(FsKind::Zip)
    } else if is_token(t, "ad1") {
        Some(FsKind::Ad1)
    } else if is_token(t, "dar") {
        Some(FsKind::Dar)
    } else if is_token(t, "other") {
        Some(FsKind::Other)
    } else {
        None
    }
}

} // verus!

//! The canonical text of a locator and its human form.

use forensic_vfs::display::shown_layer_text;
use forensic_vfs::pathspec::{Guid, Layer, NodeAddr, PathSpec, SnapshotRef};
use forensic_vfs::{
    ContainerFormat, CryptoScheme, EncryptionScheme, FileId, FsKind, StreamId, VfsError,
    VolumeScheme,
};

fn os(path: &str) -> PathSpec {
    PathSpec::os(path.as_bytes().to_vec())
}

fn roundtrip(spec: &PathSpec) {
    let uri = spec.to_uri();
    let back = PathSpec::from_uri(&uri).expect("parse own output");
    assert_eq!(&back, spec, "round-trip changed the spec; uri={uri}");
}

#[test]
fn rich_chain_round_trips() {
    let spec = os("/evidence/DC01.E01")
        .push(Layer::Container {
            format: ContainerFormat::Ewf,
        })
        .push(Layer::Volume {
            scheme: VolumeScheme::Gpt,
            index: 1,
            guid: Some(Guid([
                0x01, 0x23, 0x45, 0x67, 0x89, 0xab, 0xcd, 0xef, 0xfe, 0xdc, 0xba, 0x98, 0x76, 0x54,
                0x32, 0x10,
            ])),
        })
        .push(Layer::Fs {
            kind: FsKind::Ntfs,
            at: NodeAddr::Path(vec![
                b"Windows".to_vec(),
                b"System32".to_vec(),
                b"config".to_vec(),
                b"SYSTEM".to_vec(),
            ]),
        })
        .push(Layer::Stream {
            id: StreamId::Named(3),
        });
    roundtrip(&spec);
}

#[test]
fn hostile_path_bytes_round_trip_losslessly() {
    // A component with the layer delimiter, the escape char, a slash, a space, and a
    // non-UTF-8 byte: all must survive.
    let nasty = b"a|b%c/d e\xff\x00z".to_vec();
    let spec = os("/img.raw").push(Layer::Fs {
        kind: FsKind::Ext,
        at: NodeAddr::Path(vec![nasty.clone(), b"plain".to_vec()]),
    });
    let uri = spec.to_uri();
    // No raw delimiter leaked from the value into the structure.
    assert!(!uri.contains("a|b"), "delimiter leaked: {uri}");
    roundtrip(&spec);
}

#[test]
fn every_layer_kind_round_trips() {
    roundtrip(&os("/x").push(Layer::Range {
        start: 512,
        len: 1_048_576,
    }));
    roundtrip(&os("/x").push(Layer::Crypto {
        scheme: CryptoScheme::Bitlocker,
    }));
    roundtrip(&os("/x").push(Layer::Snapshot {
        store: SnapshotRef::VssStore(4),
    }));
    roundtrip(&os("/x").push(Layer::Snapshot {
        store: SnapshotRef::ApfsXid(9_000_000),
    }));
    // Every FileId variant.
    for id in [
        FileId::NtfsRef { entry: 5, seq: 2 },
        FileId::ExtInode { ino: 12, gen: 7 },
        FileId::ApfsOid { oid: 99, xid: 3 },
        FileId::FatDirEntry {
            cluster: 8,
            index: 1,
        },
        FileId::IsoExtent { block: 40 },
        FileId::Opaque(123),
    ] {
        roundtrip(&os("/x").push(Layer::Fs {
            kind: FsKind::Apfs,
            at: NodeAddr::File(id),
        }));
    }
    // Both (id + observed path).
    roundtrip(&os("/x").push(Layer::Fs {
        kind: FsKind::Ntfs,
        at: NodeAddr::Both {
            path: vec![b"Users".to_vec(), b"beth".to_vec()],
            id: FileId::NtfsRef { entry: 91, seq: 1 },
        },
    }));
    // Stream variants.
    for s in [
        StreamId::Default,
        StreamId::Named(7),
        StreamId::ResourceFork,
        StreamId::Xattr(2),
        StreamId::Slack,
    ] {
        roundtrip(&os("/x").push(Layer::Stream { id: s }));
    }
    // Both archive forms.
    roundtrip(&os("/x").push(Layer::Archive { member: None }));
    roundtrip(&os("/x").push(Layer::Archive { member: Some(12) }));
}

#[test]
fn empty_path_round_trips() {
    roundtrip(&os("/x").push(Layer::Fs {
        kind: FsKind::Iso9660,
        at: NodeAddr::Path(vec![]),
    }));
}

#[test]
fn from_uri_rejects_garbage() {
    assert!(PathSpec::from_uri("not-a-spec").is_err());
    assert!(PathSpec::from_uri("fvfs:").is_err());
    assert!(PathSpec::from_uri("fvfs:bogustag:x").is_err());
    assert!(PathSpec::from_uri("fvfs:range:notanumber").is_err());
}

#[test]
fn human_display_is_readable_and_not_the_uri() {
    let spec = os("/evidence/DC01.E01")
        .push(Layer::Container {
            format: ContainerFormat::Ewf,
        })
        .push(Layer::Fs {
            kind: FsKind::Ntfs,
            at: NodeAddr::Path(vec![b"Windows".to_vec()]),
        });
    let human = spec.to_string();
    assert!(human.contains("DC01.E01"), "human form: {human}");
    assert!(human.contains("Windows"), "human form: {human}");
    assert_ne!(human, spec.to_uri());
}

fn uri_round_trips(spec: &PathSpec) {
    let back = PathSpec::from_uri(&spec.to_uri()).unwrap();
    assert_eq!(&back, spec);
}

#[test]
fn coverage_both_addr_with_empty_path_round_trips() {
    // A `Both` with no observed path components: the id-only branch.
    uri_round_trips(&os("/x").push(Layer::Fs {
        kind: FsKind::Ntfs,
        at: NodeAddr::Both {
            path: vec![],
            id: FileId::NtfsRef { entry: 3, seq: 1 },
        },
    }));
}

#[test]
fn coverage_every_container_format_token_round_trips() {
    for f in [
        ContainerFormat::Ewf,
        ContainerFormat::Vmdk,
        ContainerFormat::Vhdx,
        ContainerFormat::Vhd,
        ContainerFormat::Qcow2,
        ContainerFormat::Dmg,
        ContainerFormat::Aff4,
        ContainerFormat::Ad1,
        ContainerFormat::Dar,
        ContainerFormat::Raw,
        ContainerFormat::Auto,
    ] {
        uri_round_trips(&os("/x").push(Layer::Container { format: f }));
    }
}

#[test]
fn coverage_every_volume_scheme_token_round_trips() {
    for (i, s) in [
        VolumeScheme::Mbr,
        VolumeScheme::Gpt,
        VolumeScheme::Apm,
        VolumeScheme::Vss,
        VolumeScheme::ApfsContainer,
        VolumeScheme::Lvm,
    ]
    .into_iter()
    .enumerate()
    {
        uri_round_trips(&os("/x").push(Layer::Volume {
            scheme: s,
            index: i,
            guid: None,
        }));
    }
}

#[test]
fn every_crypto_scheme_token_round_trips() {
    for s in [
        CryptoScheme::Bitlocker,
        CryptoScheme::Luks1,
        CryptoScheme::Luks2,
        CryptoScheme::FileVault,
        CryptoScheme::ApfsEncrypted,
    ] {
        uri_round_trips(&os("/x").push(Layer::Crypto { scheme: s }));
    }
}

#[test]
fn every_encryption_scheme_token_round_trips() {
    for s in [
        EncryptionScheme::Bitlocker,
        EncryptionScheme::Luks1,
        EncryptionScheme::Luks2,
        EncryptionScheme::FileVault,
        EncryptionScheme::ApfsEncrypted,
        EncryptionScheme::VeraCrypt,
    ] {
        uri_round_trips(&os("/x").push(Layer::Encryption { scheme: s }));
    }
}

#[test]
fn coverage_every_fs_kind_token_round_trips() {
    for k in [
        FsKind::Ntfs,
        FsKind::Ext,
        FsKind::HfsPlus,
        FsKind::Apfs,
        FsKind::Iso9660,
        FsKind::Udf,
        FsKind::Fat,
        FsKind::ExFat,
        FsKind::Xfs,
        FsKind::Btrfs,
        FsKind::Zfs,
        FsKind::Ufs,
        FsKind::Refs,
        FsKind::Zip,
        FsKind::Ad1,
        FsKind::Dar,
        FsKind::Other,
    ] {
        uri_round_trips(&os("/x").push(Layer::Fs {
            kind: k,
            at: NodeAddr::Path(vec![b"a".to_vec()]),
        }));
    }
}

#[test]
fn coverage_from_uri_rejects_every_malformed_layer() {
    for bad in [
        "no-scheme",
        "fvfs:",
        "fvfs:notag",
        "fvfs:bogus:x",
        "fvfs:os:%2",  // truncated percent
        "fvfs:os:%zz", // bad percent hex
        "fvfs:os:x|container:zzz",
        "fvfs:os:x|range:5",   // missing ,len
        "fvfs:os:x|range:a,b", // non-numeric
        "fvfs:os:x|volume:zzz,0",
        "fvfs:os:x|volume:gpt",            // missing index
        "fvfs:os:x|volume:gpt,0,tooshort", // bad guid len
        "fvfs:os:x|volume:gpt,0,zzzzzzzzzzzzzzzzzzzzzzzzzzzzzzzz", // 32 non-hex
        "fvfs:os:x|crypto:zzz",
        "fvfs:os:x|encryption:zzz",
        "fvfs:os:x|snapshot:zzz,1",
        "fvfs:os:x|snapshot:vss",          // missing ,id
        "fvfs:os:x|fs:zzz,p",              // bad fs kind
        "fvfs:os:x|fs:ntfs",               // missing addr
        "fvfs:os:x|fs:ntfs,zzz",           // bad node-addr tag
        "fvfs:os:x|fs:ntfs,f/zzz.1",       // bad file-id kind
        "fvfs:os:x|fs:ntfs,f/ntfsref",     // file id missing fields
        "fvfs:os:x|fs:ntfs,f/ntfsref.x.1", // file id non-numeric
        "fvfs:os:x|stream:zzz",
        "fvfs:os:x|archive:notanumber", // archive member index must be numeric
    ] {
        assert!(PathSpec::from_uri(bad).is_err(), "should reject: {bad}");
    }
}

#[test]
fn coverage_display_renders_every_layer_kind() {
    let spec = os("/img.raw")
        .push(Layer::Range { start: 0, len: 512 })
        .push(Layer::Volume {
            scheme: VolumeScheme::Gpt,
            index: 2,
            guid: None,
        })
        .push(Layer::Crypto {
            scheme: CryptoScheme::Luks2,
        })
        .push(Layer::Snapshot {
            store: SnapshotRef::VssStore(1),
        })
        .push(Layer::Fs {
            kind: FsKind::Ntfs,
            at: NodeAddr::File(FileId::NtfsRef { entry: 5, seq: 1 }),
        })
        .push(Layer::Stream {
            id: StreamId::Named(3),
        })
        .push(Layer::Archive { member: Some(2) });
    let human = spec.to_string();
    for needle in [
        "range[0+512]",
        "gpt#2",
        "luks2",
        "vss#1",
        "ntfs#",
        ":named.3",
        "archive#2",
    ] {
        assert!(human.contains(needle), "missing {needle} in {human}");
    }
    // The encryption layer, in place of the volume-encryption one.
    let encrypted = os("/img.raw").push(Layer::Encryption {
        scheme: EncryptionScheme::Luks2,
    });
    assert!(encrypted.to_string().contains("luks2"));
    // The bare-stream archive form.
    let stream = os("/x").push(Layer::Archive { member: None });
    assert!(stream.to_string().contains("archive"));
    // The apfs snapshot form.
    let apfs = os("/x").push(Layer::Snapshot {
        store: SnapshotRef::ApfsXid(77),
    });
    assert!(apfs.to_string().contains("apfs@77"));
}

// --- exact texts -----------------------------------------------------------

#[test]
fn the_canonical_text_is_exact() {
    let spec = os("/img.raw")
        .push(Layer::Container {
            format: ContainerFormat::Ewf,
        })
        .push(Layer::Volume {
            scheme: VolumeScheme::Gpt,
            index: 1,
            guid: Some(Guid([0xab; 16])),
        })
        .push(Layer::Fs {
            kind: FsKind::Ntfs,
            at: NodeAddr::Path(vec![b"a b".to_vec(), b"c".to_vec()]),
        })
        .push(Layer::Stream {
            id: StreamId::Xattr(2),
        });
    let uri = spec.to_uri();
    assert!(uri.starts_with("fvfs:os:"), "{uri}");
    assert!(
        uri.ends_with(
            "|container:ewf|volume:gpt,1,abababababababababababababababab|fs:ntfs,p/a%20b/c|stream:xattr.2"
        ),
        "{uri}"
    );
    assert_eq!(
        PathSpec::root(Layer::Range { start: 7, len: 9 }).to_uri(),
        "fvfs:range:7,9"
    );
    assert_eq!(
        PathSpec::root(Layer::Snapshot {
            store: SnapshotRef::ApfsXid(3)
        })
        .to_uri(),
        "fvfs:snapshot:apfs,3"
    );
}

#[test]
fn the_human_form_is_exact_and_never_parses() {
    let spec = os("/img.raw").push(Layer::Fs {
        kind: FsKind::Ext,
        at: NodeAddr::Path(vec![b"etc".to_vec(), b"\xffx".to_vec()]),
    });
    assert_eq!(spec.to_string(), "os:/img.raw | ext:/etc/\u{fffd}x");
    assert!(PathSpec::from_uri(&spec.to_string()).is_err());
}

#[test]
fn distinct_locators_have_distinct_texts() {
    let one = os("/a|range:0,1");
    let two = os("/a").push(Layer::Range { start: 0, len: 1 });
    assert_ne!(one.to_uri(), two.to_uri());
    roundtrip(&one);
    roundtrip(&two);
}

#[test]
fn a_rejected_text_is_carried_in_the_error() {
    for (text, want, carried) in [
        ("bogus", "missing fvfs: scheme", "bogus"),
        ("fvfs:", "layer missing tag", ""),
        ("fvfs:bogus:x", "unknown layer tag", "bogus:x"),
        ("fvfs:os:%2", "truncated percent escape", "%2"),
        ("fvfs:os:%zz", "bad percent hex", "%zz"),
        ("fvfs:os:%\u{e9}", "bad percent hex", "%\u{e9}"),
        ("fvfs:os:%a\u{e9}", "non-ascii percent escape", "%a\u{e9}"),
        ("fvfs:range:5", "range needs start,len", "range:5"),
        ("fvfs:volume:gpt", "volume needs index", "volume:gpt"),
        ("fvfs:snapshot:vss", "snapshot needs kind,id", "snapshot:vss"),
        ("fvfs:fs:ntfs", "fs needs kind,addr", "fs:ntfs"),
    ] {
        match PathSpec::from_uri(text) {
            Err(VfsError::Decode {
                layer,
                offset,
                detail,
                bytes,
            }) => {
                assert_eq!(layer, "pathspec-uri");
                assert_eq!(offset, 0);
                assert_eq!(detail, want, "for {text}");
                let shown = carried.as_bytes();
                assert_eq!(bytes.as_bytes(), &shown[..shown.len().min(16)], "for {text}");
            }
            Err(e) => panic!("another error: {}", e.to_string()),
            Ok(_) => panic!("accepted: {text}"),
        }
    }
}

#[test]
fn a_layer_is_shown_with_the_names_that_it_is_given() {
    let fs = Layer::Fs {
        kind: FsKind::Apfs,
        at: NodeAddr::Path(vec![b"\xff".to_vec(), b"b".to_vec()]),
    };
    let names = vec!["one".to_string(), "two".to_string()];
    assert_eq!(shown_layer_text(&fs, &names), "apfs:/one/two");
    let by_id = Layer::Fs {
        kind: FsKind::Ntfs,
        at: NodeAddr::File(FileId::NtfsRef { entry: 5, seq: 1 }),
    };
    assert_eq!(shown_layer_text(&by_id, &vec![]), "ntfs#ntfsref.5.1");
    let os = Layer::Os {
        path: b"/x".to_vec(),
    };
    assert_eq!(shown_layer_text(&os, &vec!["/y".to_string()]), "os:/y");
}

fn fault_of(text: &str) -> String {
    match PathSpec::from_uri(text) {
        Err(VfsError::Decode { detail, .. }) => detail,
        Err(e) => panic!("another error: {}", e.to_string()),
        Ok(_) => panic!("accepted: {text}"),
    }
}

#[test]
fn an_escape_is_two_hex_digits() {
    for text in ["%+f", "%f+", "%-1", "% f", "%gg", "%%41"] {
        assert_eq!(fault_of(&format!("fvfs:os:{text}")), "bad percent hex", "for {text}");
    }
    assert_eq!(
        PathSpec::from_uri("fvfs:os:%2f%2Fa+b").unwrap(),
        PathSpec::os(b"//a+b".to_vec())
    );
}

#[test]
fn a_guid_is_thirty_two_hex_digits() {
    let zeros = "00".repeat(15);
    for pair in ["+f", "f+", "zz", " 1"] {
        let text = format!("fvfs:os:x|volume:gpt,0,{zeros}{pair}");
        assert_eq!(fault_of(&text), "bad guid hex", "for {pair}");
    }
    let upper = PathSpec::from_uri(&format!("fvfs:os:x|volume:gpt,0,{zeros}FE")).unwrap();
    let mut g = [0u8; 16];
    g[15] = 0xfe;
    assert_eq!(
        upper.layer,
        Layer::Volume {
            scheme: VolumeScheme::Gpt,
            index: 0,
            guid: Some(Guid(g)),
        }
    );
}

#[test]
fn a_number_wider_than_its_field_is_refused() {
    for (id, widest) in [
        ("ntfsref.5.65536", "ntfsref.5.65535"),
        ("ntfsref.5.65537", "ntfsref.18446744073709551615.0"),
        ("ntfsref.18446744073709551616.0", "ntfsref.0.0"),
        ("extinode.1.4294967296", "extinode.1.4294967295"),
        ("apfsoid.1.18446744073709551616", "apfsoid.1.18446744073709551615"),
        ("fatdirentry.4294967296.0", "fatdirentry.4294967295.0"),
        ("fatdirentry.0.65536", "fatdirentry.0.65535"),
        ("isoextent.4294967296", "isoextent.4294967295"),
        ("opaque.18446744073709551616", "opaque.18446744073709551615"),
    ] {
        assert_eq!(fault_of(&format!("fvfs:fs:ntfs,f/{id}")), "expected integer", "for {id}");
        let text = format!("fvfs:fs:ntfs,f/{widest}");
        assert_eq!(PathSpec::from_uri(&text).unwrap().to_uri(), text);
    }
    for kind in ["named", "xattr"] {
        assert_eq!(fault_of(&format!("fvfs:stream:{kind}.65536")), "expected u32");
        let text = format!("fvfs:stream:{kind}.65535");
        assert_eq!(PathSpec::from_uri(&text).unwrap().to_uri(), text);
    }
}

#[test]
fn a_number_may_begin_with_one_plus_sign() {
    for (text, canonical) in [
        ("fvfs:range:+5,9", "fvfs:range:5,9"),
        ("fvfs:range:5,+09", "fvfs:range:5,9"),
        ("fvfs:volume:gpt,+1", "fvfs:volume:gpt,1"),
        ("fvfs:archive:+1", "fvfs:archive:1"),
        ("fvfs:snapshot:vss,+1", "fvfs:snapshot:vss,1"),
        ("fvfs:snapshot:apfs,+1", "fvfs:snapshot:apfs,1"),
        ("fvfs:stream:named.+65535", "fvfs:stream:named.65535"),
        ("fvfs:stream:xattr.+1", "fvfs:stream:xattr.1"),
        ("fvfs:fs:ntfs,f/ntfsref.+5.+1", "fvfs:fs:ntfs,f/ntfsref.5.1"),
        ("fvfs:fs:ntfs,b/opaque.+1/x", "fvfs:fs:ntfs,b/opaque.1/x"),
    ] {
        assert_eq!(PathSpec::from_uri(text).unwrap().to_uri(), canonical);
    }
    for (text, want) in [
        ("fvfs:range:+,9", "expected integer"),
        ("fvfs:range:++5,9", "expected integer"),
        ("fvfs:range:5+,9", "expected integer"),
        ("fvfs:range:,9", "expected integer"),
        ("fvfs:range:-5,9", "expected integer"),
        ("fvfs:volume:gpt,+", "expected index"),
        ("fvfs:stream:named.+65536", "expected u32"),
        ("fvfs:fs:ntfs,f/opaque.-1", "expected integer"),
    ] {
        assert_eq!(fault_of(text), want, "for {text}");
    }
}

#[test]
fn fields_beyond_the_last_are_refused() {
    let guid = "00".repeat(16);
    for (text, want) in [
        ("fvfs:fs:ntfs,f/ntfsref.5.1.9".to_string(), "too many file id fields"),
        ("fvfs:fs:ntfs,f/opaque.5.".to_string(), "too many file id fields"),
        ("fvfs:fs:iso9660,b/isoextent.5.6/a".to_string(), "too many file id fields"),
        ("fvfs:stream:default.junk".to_string(), "too many stream fields"),
        ("fvfs:stream:resourcefork.".to_string(), "too many stream fields"),
        ("fvfs:stream:slack.1".to_string(), "too many stream fields"),
        ("fvfs:stream:named.1.2".to_string(), "too many stream fields"),
        ("fvfs:stream:xattr.1.".to_string(), "too many stream fields"),
        (format!("fvfs:volume:gpt,1,{guid},x"), "too many volume fields"),
        ("fvfs:range:1,2,3".to_string(), "expected integer"),
    ] {
        assert_eq!(fault_of(&text), want, "for {text}");
    }
}

#[test]
fn a_node_address_begins_its_body_with_a_slash() {
    for at in ["pa", "pa/b", "fopaque.1", "bopaque.1/a", "p%2fa"] {
        assert_eq!(
            fault_of(&format!("fvfs:fs:ntfs,{at}")),
            "unknown node address",
            "for {at}"
        );
    }
    for at in ["f", "b"] {
        assert_eq!(
            fault_of(&format!("fvfs:fs:ntfs,{at}")),
            "unknown file id kind",
            "for {at}"
        );
    }
    for at in ["p", "p/a/b", "f/opaque.1", "b/opaque.1", "b/opaque.1/a"] {
        let text = format!("fvfs:fs:ntfs,{at}");
        assert_eq!(PathSpec::from_uri(&text).unwrap().to_uri(), text);
    }
}

#[test]
fn a_utf8_name_is_shown_as_itself() {
    let spec = os("/b\u{e9}b\u{e9}").push(Layer::Fs {
        kind: FsKind::Ext,
        at: NodeAddr::Path(vec!["\u{65e5}".as_bytes().to_vec(), b"x".to_vec()]),
    });
    assert_eq!(spec.to_string(), "os:/b\u{e9}b\u{e9} | ext:/\u{65e5}/x");
}

#[test]
fn every_spelling_of_a_locator_is_read_as_that_locator() {
    for (text, canonical) in [
        ("fvfs:os:%61/b", "fvfs:os:a%2Fb"),
        ("fvfs:range:007,0", "fvfs:range:7,0"),
        ("fvfs:stream:named.0065535", "fvfs:stream:named.65535"),
        ("fvfs:fs:ntfs,p/%41%2f/", "fvfs:fs:ntfs,p/A%2F/"),
        ("fvfs:fs:ntfs,b/opaque.01/x", "fvfs:fs:ntfs,b/opaque.1/x"),
    ] {
        let spec = PathSpec::from_uri(text).unwrap();
        assert_eq!(spec.to_uri(), canonical);
        assert_eq!(PathSpec::from_uri(canonical).unwrap(), spec);
    }
}

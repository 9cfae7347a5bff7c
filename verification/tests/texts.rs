use swhid::error::{DirectoryError, SnapshotError, SwhidError};
use swhid::identifier::{ObjectType, Swhid};
use swhid::permissions::PermissionsSourceKind::{
    Auto, Filesystem, GitIndex, GitTree, Heuristic, Manifest,
};
use swhid::permissions::{
    effective_source, executable_from_mode, index_answer, path_segments, tree_step, EntryExec,
    EntryPerms, TreeStep,
};
use swhid::qualifier::{parse_range, ByteRange, LineRange, QualifiedSwhid};

const CORE: &str = "swh:1:cnt:b45ef6fec89518d314f546fd6c3025367b721684";

fn message(result: Result<Swhid, SwhidError>) -> String {
    result.unwrap_err().to_string()
}

#[test]
fn each_field_has_its_error() {
    assert_eq!(message(Swhid::parse("")), "invalid SWHID format: ");
    assert_eq!(message(Swhid::parse("swh")), "invalid SWHID format: swh");
    assert_eq!(message(Swhid::parse("swh:1")), "invalid SWHID format: swh:1");
    assert_eq!(message(Swhid::parse("swh:1:cnt")), "invalid SWHID format: swh:1:cnt");
    assert_eq!(
        message(Swhid::parse("swh:1:cnt:00:11")),
        "invalid SWHID format: swh:1:cnt:00:11"
    );
    assert_eq!(
        message(Swhid::parse("git:1:cnt:00")),
        "invalid URI scheme (expected `swh`): git"
    );
    assert_eq!(message(Swhid::parse(":")), "invalid URI scheme (expected `swh`): ");
    assert_eq!(message(Swhid::parse("swh:2:cnt:00")), "unsupported SWHID version: 2");
    assert_eq!(message(Swhid::parse("swh::cnt:00")), "unsupported SWHID version: ");
    assert_eq!(message(Swhid::parse("swh:1:blob:00")), "invalid object type: blob");
    assert_eq!(
        message(Swhid::parse("swh:1:cnt:00")),
        "invalid digest (expected 40 hex chars): 00"
    );
    assert_eq!(
        message(Swhid::parse("swh:1:cnt:")),
        "invalid digest (expected 40 hex chars): "
    );
    assert_eq!(
        message(Swhid::parse("swh:1:cnt:B45ef6fec89518d314f546fd6c3025367b721684")),
        "invalid digest (expected 40 hex chars): B45ef6fec89518d314f546fd6c3025367b721684"
    );
    assert_eq!(
        message(Swhid::parse("swh:1:cnt:é45ef6fec89518d314f546fd6c3025367b72168")),
        "invalid digest (expected 40 hex chars): é45ef6fec89518d314f546fd6c3025367b72168"
    );
    assert_eq!(
        message(ObjectType::from_tag("Cnt").map(|t| Swhid::new(t, [0; 20]))),
        "invalid object type: Cnt"
    );
}

#[test]
fn the_fields_are_tried_from_the_left() {
    assert!(matches!(Swhid::parse("x:y:z"), Err(SwhidError::InvalidScheme(_))));
    assert!(matches!(Swhid::parse("swh:y:z"), Err(SwhidError::InvalidVersion(_))));
    assert!(matches!(Swhid::parse("swh:1:z"), Err(SwhidError::InvalidObjectType(_))));
    assert!(matches!(Swhid::parse("swh:1:z:0:0"), Err(SwhidError::InvalidObjectType(_))));
    // too many fields count before a digest that is not one
    assert!(matches!(Swhid::parse("swh:1:cnt:0:0"), Err(SwhidError::InvalidFormat(_))));
    assert!(matches!(Swhid::parse("swh:1:cnt:0"), Err(SwhidError::InvalidDigest(_))));
}

#[test]
fn digests_are_read_and_written_in_lower_case() {
    let all: Vec<u8> = (0..20).map(|i| (i * 13 + 7) as u8).collect();
    let digest: [u8; 20] = all.clone().try_into().unwrap();
    let id = Swhid::new(ObjectType::Release, digest);
    assert_eq!(id.digest_hex(), hex::encode(&all));
    assert_eq!(id.to_string(), format!("swh:1:rel:{}", hex::encode(&all)));
    let back = Swhid::parse(&id.to_string()).unwrap();
    assert_eq!(back, id);
    assert_eq!(back.digest_bytes(), &digest);
    let edge = Swhid::parse(&format!("swh:1:snp:{}", "00ff0ff0a9".repeat(4)));
    assert_eq!(
        edge.unwrap().digest_bytes(),
        &[
            0x00, 0xff, 0x0f, 0xf0, 0xa9, 0x00, 0xff, 0x0f, 0xf0, 0xa9, 0x00, 0xff, 0x0f, 0xf0,
            0xa9, 0x00, 0xff, 0x0f, 0xf0, 0xa9
        ]
    );
}

fn qualified_message(s: &str) -> String {
    QualifiedSwhid::parse(s).unwrap_err().to_string()
}

#[test]
fn items_that_are_refused() {
    assert_eq!(
        qualified_message(&format!("{CORE};origin")),
        "invalid SWHID format: origin"
    );
    assert_eq!(
        qualified_message(&format!("{CORE};=v")),
        "invalid SWHID format: =v"
    );
    assert_eq!(
        qualified_message(&format!("{CORE};path=a;=")),
        "invalid SWHID format: ="
    );
    assert_eq!(
        qualified_message(&format!("{CORE};visit=swh:1:cnt:00")),
        "invalid digest (expected 40 hex chars): 00"
    );
    assert_eq!(
        qualified_message(&format!("{CORE};anchor=")),
        "invalid SWHID format: "
    );
    assert_eq!(
        qualified_message(&format!("{CORE};lines=20-10")),
        "invalid qualifier value for `range`: 20-10"
    );
    assert_eq!(
        qualified_message(&format!("{CORE};bytes=1-")),
        "invalid qualifier value for `range`: 1-"
    );
    assert_eq!(
        qualified_message("swh:1:cnt:zz;lines=1"),
        "invalid digest (expected 40 hex chars): zz"
    );
    assert_eq!(qualified_message(";origin=x"), "invalid SWHID format: ");
    assert!(matches!(
        QualifiedSwhid::parse(&format!("{CORE};lines=x")),
        Err(SwhidError::InvalidQualifierValue { key, value }) if key == "range" && value == "x"
    ));
}

#[test]
fn ranges() {
    assert_eq!(parse_range("18446744073709551615").unwrap(), (u64::MAX, None));
    assert!(parse_range("18446744073709551616").is_err());
    assert!(parse_range("99999999999999999999999999").is_err());
    assert_eq!(
        parse_range("0-18446744073709551615").unwrap(),
        (0, Some(u64::MAX))
    );
    assert_eq!(parse_range("007-010").unwrap(), (7, Some(10)));
    assert_eq!(parse_range("+5").unwrap(), (5, None));
    assert_eq!(parse_range("+5-+6").unwrap(), (5, Some(6)));
    for refused in ["", "-", "+", "++5", "5+", "1-2-3", "1--2", " 1", "1 ", "a", "1.5", "١"] {
        assert!(parse_range(refused).is_err(), "{refused}");
    }
    assert_eq!(LineRange { start: 0, end: None }.to_string(), "0");
    assert_eq!(
        ByteRange { start: u64::MAX, end: Some(u64::MAX) }.to_string(),
        "18446744073709551615-18446744073709551615"
    );
}

#[test]
fn items_are_written_in_one_order() {
    let q = QualifiedSwhid::parse(&format!(
        "{CORE};b=2;bytes=3;lines=1-2;path=/p;anchor=swh:1:dir:{0};visit=swh:1:snp:{0};origin=o;a=1",
        "0".repeat(40)
    ))
    .unwrap();
    assert_eq!(
        q.to_string(),
        format!(
            "{CORE};origin=o;visit=swh:1:snp:{0};anchor=swh:1:dir:{0};path=/p;lines=1-2;bytes=3;b=2;a=1",
            "0".repeat(40)
        )
    );
    // what is written reads back as it is
    assert_eq!(QualifiedSwhid::parse(&q.to_string()).unwrap(), q);
    assert_eq!(QualifiedSwhid::parse(&q.to_string()).unwrap().to_string(), q.to_string());
}

#[test]
fn texts_that_read_but_are_not_written_so() {
    let written = |s: &str| QualifiedSwhid::parse(s).unwrap().to_string();
    assert_eq!(written(&format!("{CORE};")), CORE);
    assert_eq!(written(&format!("{CORE};;;path=a;;")), format!("{CORE};path=a"));
    assert_eq!(written(&format!("{CORE};lines=+5")), format!("{CORE};lines=5"));
    assert_eq!(written(&format!("{CORE};bytes=007-08")), format!("{CORE};bytes=7-8"));
    assert_eq!(written(&format!("{CORE};path=a;path=b")), format!("{CORE};path=b"));
    assert_eq!(
        written(&format!("{CORE};x=1;origin=a=b;x=2")),
        format!("{CORE};origin=a=b;x=1;x=2")
    );
}

#[test]
fn values_are_kept_as_they_stand() {
    let q = QualifiedSwhid::parse(&format!("{CORE};origin=;path= é=:, ;Origin=x;k=")).unwrap();
    assert_eq!(q.origin().map(|s| s.as_str()), Some(""));
    assert_eq!(q.path().map(|s| s.as_str()), Some(" é=:, "));
    assert_eq!(
        q.others(),
        vec![("Origin".to_string(), "x".to_string()), ("k".to_string(), String::new())]
    );
    assert_eq!(q.to_string(), format!("{CORE};origin=;path= é=:, ;Origin=x;k="));
    assert_eq!(q.visit(), None);
    assert_eq!(q.anchor(), None);
    assert_eq!(q.lines(), None);
    assert_eq!(q.bytes(), None);
}

#[test]
fn errors_of_directories_and_snapshots() {
    assert_eq!(
        DirectoryError::DuplicateEntryName(b"a.txt".to_vec()).to_string(),
        "Duplicate entry name: a.txt"
    );
    assert_eq!(
        DirectoryError::InvalidByteInName { byte: 47, name: b"a/b".to_vec() }.to_string(),
        "Invalid byte 47 in name: a/b"
    );
    assert_eq!(
        DirectoryError::InvalidByteInName { byte: 0, name: b"a\0".to_vec() }.to_string(),
        "Invalid byte 0 in name: a\0"
    );
    // a name that is no text is shown as far as it is
    assert_eq!(
        DirectoryError::DuplicateEntryName(vec![b'a', 0xff, b'b']).to_string(),
        "Duplicate entry name: a\u{fffd}b"
    );
    assert_eq!(
        SnapshotError::DuplicateBranchName("é".as_bytes().to_vec()).to_string(),
        "Duplicate branch name: é"
    );
    assert_eq!(
        SnapshotError::InvalidByteInName { byte: 0, name: vec![0xc3] }.to_string(),
        "Invalid byte 0 in name: \u{fffd}"
    );
}

#[test]
fn other_errors() {
    assert_eq!(
        SwhidError::InvalidQualifierKey("k".to_string()).to_string(),
        "invalid qualifier key: k"
    );
    assert_eq!(
        SwhidError::InvalidQualifierValue { key: "k".to_string(), value: "v".to_string() }
            .to_string(),
        "invalid qualifier value for `k`: v"
    );
    assert_eq!(SwhidError::Io("gone".to_string()).to_string(), "I/O error: gone");
}

#[test]
fn modes() {
    for perms in [
        EntryPerms::File { executable: false },
        EntryPerms::File { executable: true },
        EntryPerms::Directory,
        EntryPerms::Symlink,
        EntryPerms::RevisionRef,
    ] {
        assert_eq!(EntryPerms::from_mode(perms.to_swh_mode_u32()).unwrap(), perms);
        assert_eq!(
            u32::from_str_radix(perms.to_git_mode_string(), 8).unwrap(),
            perms.to_swh_mode_u32()
        );
    }
    assert_eq!(
        EntryPerms::from_mode(0o100600).unwrap_err().to_string(),
        "invalid SWHID format: Invalid entry mode: 100600"
    );
    assert_eq!(
        EntryPerms::from_mode(0).unwrap_err().to_string(),
        "invalid SWHID format: Invalid entry mode: 0"
    );
    assert!(EntryPerms::from_mode(0o40000 + 1).is_err());
    assert!(EntryPerms::from_mode(u32::MAX).is_err());
    assert_eq!(executable_from_mode(0o100644), EntryExec::Known(false));
    assert_eq!(executable_from_mode(0o100755), EntryExec::Known(true));
    assert_eq!(executable_from_mode(0o100100), EntryExec::Known(true));
    assert_eq!(executable_from_mode(0o100010), EntryExec::Known(true));
    assert_eq!(executable_from_mode(0o100001), EntryExec::Known(true));
    assert_eq!(executable_from_mode(0o40000), EntryExec::Known(false));
}

#[test]
fn the_source_that_is_used() {
    assert_eq!(effective_source(Auto, true), GitIndex);
    assert_eq!(effective_source(Auto, false), Filesystem);
    assert_eq!(effective_source(Heuristic, true), Filesystem);
    assert_eq!(effective_source(Heuristic, false), Filesystem);
    for kind in [Filesystem, GitIndex, GitTree, Manifest] {
        assert_eq!(effective_source(kind, true), kind);
        assert_eq!(effective_source(kind, false), kind);
    }
}

#[test]
fn looking_a_path_up_in_a_tree() {
    assert_eq!(path_segments("a/b/c"), vec!["a", "b", "c"]);
    assert_eq!(path_segments("/a//b/"), vec!["a", "b"]);
    assert_eq!(path_segments("a"), vec!["a"]);
    assert!(path_segments("").is_empty());
    assert!(path_segments("///").is_empty());
    assert_eq!(path_segments("é/ /.."), vec!["é", " ", ".."]);

    assert_eq!(tree_step(None, true), TreeStep::Answer(EntryExec::Unknown));
    assert_eq!(tree_step(None, false), TreeStep::Answer(EntryExec::Unknown));
    assert_eq!(
        tree_step(Some(0o100755), true),
        TreeStep::Answer(EntryExec::Known(true))
    );
    assert_eq!(
        tree_step(Some(0o100644), true),
        TreeStep::Answer(EntryExec::Known(false))
    );
    assert_eq!(tree_step(Some(0o040000), false), TreeStep::Descend);
    assert_eq!(tree_step(Some(0o100755), false), TreeStep::Descend);

    assert_eq!(index_answer(None), EntryExec::Unknown);
    assert_eq!(index_answer(Some(0o100755)), EntryExec::Known(true));
    assert_eq!(index_answer(Some(0o100644)), EntryExec::Known(false));
}

#[test]
fn written_texts_read_back_as_they_stand() {
    let zeros = "0".repeat(40);
    let written = [
        CORE.to_string(),
        format!("{CORE};origin=https://example.org/a?b=c"),
        format!("{CORE};visit=swh:1:snp:{zeros}"),
        format!("{CORE};anchor=swh:1:rev:{zeros};path=/a b/c"),
        format!("{CORE};lines=0"),
        format!("{CORE};lines=10;bytes=0-0"),
        format!("{CORE};bytes=18446744073709551615"),
        format!("{CORE};origin=;path=;lines=1-2;bytes=3-4;z=1;a=2;z=3;Path=x"),
        format!("{CORE};k=;k=="),
    ];
    for text in &written {
        assert_eq!(&QualifiedSwhid::parse(text).unwrap().to_string(), text);
    }
    // read, but with an empty item, a key out of its place or twice, or a
    // number that is not plain: written otherwise
    let otherwise = [
        format!("{CORE};"),
        format!("{CORE};;path=a"),
        format!("{CORE};path=a;"),
        format!("{CORE};path=a;origin=b"),
        format!("{CORE};x=1;origin=b"),
        format!("{CORE};origin=a;origin=a"),
        format!("{CORE};lines=01"),
        format!("{CORE};lines=+1"),
        format!("{CORE};bytes=1-02"),
        format!("{CORE};bytes=00"),
    ];
    for text in &otherwise {
        assert_ne!(&QualifiedSwhid::parse(text).unwrap().to_string(), text);
    }
}

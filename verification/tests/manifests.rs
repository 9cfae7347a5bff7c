use swhid::content::Content;
use swhid::hash::{hash_content, hash_swhid_object, swhid_object_header};
use swhid::identifier::{ObjectType, Swhid};
use swhid::release::{rel_manifest, Release, ReleaseTargetType};
use swhid::revision::{rev_manifest, Revision};
use swhid::snapshot::{snp_manifest, Branch, BranchTarget};
use swhid::utils::HeaderWriter;

fn bs(s: &'static str) -> Vec<u8> {
    s.as_bytes().into()
}

fn revision() -> Revision {
    Revision {
        directory: [0xab; 20],
        parents: vec![[0x01; 20], [0xff; 20]],
        author: bs("A <a@x>"),
        author_timestamp: 0,
        author_timestamp_offset: bs("+0000"),
        committer: bs("C <c@x>"),
        committer_timestamp: -1,
        committer_timestamp_offset: bs("-0130"),
        extra_headers: vec![(bs("gpgsig"), bs("one\ntwo\n\nthree")), (bs("k"), bs(""))],
        message: Some(bs("line\n\nmore")),
    }
}

#[test]
fn revision_manifest_lines() {
    let expected = b"tree abababababababababababababababababababab\n\
        parent 0101010101010101010101010101010101010101\n\
        parent ffffffffffffffffffffffffffffffffffffffff\n\
        author A <a@x> 0 +0000\n\
        committer C <c@x> -1 -0130\n\
        gpgsig one\n two\n \n three\n\
        k \n\
        \n\
        line\n\nmore";
    assert_eq!(rev_manifest(&revision()), expected);
    assert_eq!(
        revision().swhid(),
        Swhid::new(ObjectType::Revision, hash_swhid_object("commit", expected))
    );
}

#[test]
fn revision_without_message() {
    let mut rev = revision();
    rev.message = None;
    rev.parents = Vec::new();
    rev.extra_headers = Vec::new();
    assert_eq!(
        rev_manifest(&rev),
        b"tree abababababababababababababababababababab\n\
        author A <a@x> 0 +0000\n\
        committer C <c@x> -1 -0130\n"
    );
    rev.message = Some(Vec::new());
    assert_eq!(
        rev_manifest(&rev),
        b"tree abababababababababababababababababababab\n\
        author A <a@x> 0 +0000\n\
        committer C <c@x> -1 -0130\n\n"
    );
}

#[test]
fn parents_keep_their_order() {
    let mut a = revision();
    let mut b = revision();
    a.parents = vec![[1; 20], [2; 20]];
    b.parents = vec![[2; 20], [1; 20]];
    assert_ne!(rev_manifest(&a), rev_manifest(&b));
    assert_ne!(a.swhid(), b.swhid());
}

fn release() -> Release {
    Release {
        object: [0x10; 20],
        object_type: ReleaseTargetType::Revision,
        name: bs("v2"),
        author: Some(bs("T <t@x>")),
        author_timestamp: Some(9223372036854775807),
        author_timestamp_offset: Some(bs("+0200")),
        extra_headers: vec![(bs("x"), bs("y\nz"))],
        message: None,
    }
}

#[test]
fn release_manifest_lines() {
    let expected = b"object 1010101010101010101010101010101010101010\n\
        type commit\n\
        tag v2\n\
        tagger T <t@x> 9223372036854775807 +0200\n\
        x y\n z\n";
    assert_eq!(rel_manifest(&release()), expected);
    assert_eq!(
        release().swhid(),
        Swhid::new(ObjectType::Release, hash_swhid_object("tag", expected))
    );
}

#[test]
fn release_target_labels() {
    let label = |t| {
        let mut rel = release();
        rel.object_type = t;
        rel.extra_headers = Vec::new();
        rel.author = None;
        String::from_utf8(rel_manifest(&rel)).unwrap()
    };
    assert!(label(ReleaseTargetType::Revision).contains("\ntype commit\n"));
    assert!(label(ReleaseTargetType::Directory).contains("\ntype tree\n"));
    assert!(label(ReleaseTargetType::Release).contains("\ntype tag\n"));
    assert!(label(ReleaseTargetType::Content).contains("\ntype blob\n"));
}

#[test]
fn a_release_author_is_written_whole_or_not_at_all() {
    let without = {
        let mut rel = release();
        rel.author = None;
        rel.author_timestamp = None;
        rel.author_timestamp_offset = None;
        rel_manifest(&rel)
    };
    assert_eq!(
        without,
        b"object 1010101010101010101010101010101010101010\ntype commit\ntag v2\nx y\n z\n"
    );
    for missing in 0..3 {
        let mut rel = release();
        match missing {
            0 => rel.author = None,
            1 => rel.author_timestamp = None,
            _ => rel.author_timestamp_offset = None,
        }
        assert_eq!(rel_manifest(&rel), without);
    }
    let mut most = release();
    most.author = None;
    most.author_timestamp_offset = None;
    assert_eq!(rel_manifest(&most), without);
    let mut smallest = release();
    smallest.author_timestamp = Some(i64::MIN);
    assert!(String::from_utf8(rel_manifest(&smallest))
        .unwrap()
        .contains("tagger T <t@x> -9223372036854775808 +0200\n"));
}

#[test]
fn snapshot_targets() {
    let manifest = snp_manifest(vec![
        Branch::new(bs("a"), BranchTarget::Content(Some([1; 20]))),
        Branch::new(bs("b"), BranchTarget::Directory(Some([2; 20]))),
        Branch::new(bs("c"), BranchTarget::Revision(None)),
        Branch::new(bs("d"), BranchTarget::Release(Some([4; 20]))),
        Branch::new(bs("e"), BranchTarget::Snapshot(Some([5; 20]))),
        Branch::new(bs("f"), BranchTarget::Alias(None)),
        Branch::new(bs("g"), BranchTarget::Alias(Some(bs("a")))),
        Branch::new(bs("h"), BranchTarget::Alias(Some(Vec::new()))),
    ])
    .unwrap();
    let mut expected = Vec::new();
    expected.extend_from_slice(b"content a\x0020:");
    expected.extend_from_slice(&[1; 20]);
    expected.extend_from_slice(b"directory b\x0020:");
    expected.extend_from_slice(&[2; 20]);
    expected.extend_from_slice(b"revision c\x000:");
    expected.extend_from_slice(b"release d\x0020:");
    expected.extend_from_slice(&[4; 20]);
    expected.extend_from_slice(b"snapshot e\x0020:");
    expected.extend_from_slice(&[5; 20]);
    expected.extend_from_slice(b"alias f\x000:");
    expected.extend_from_slice(b"alias g\x001:a");
    expected.extend_from_slice(b"alias h\x000:");
    assert_eq!(manifest, expected);
    assert_eq!(BranchTarget::Revision(None).target_id(), b"");
    assert_eq!(BranchTarget::Content(Some([7; 20])).target_id(), [7; 20]);
    assert_eq!(BranchTarget::Alias(Some(bs("x"))).target_id(), b"x");
    assert_eq!(BranchTarget::Snapshot(None).label(), "snapshot");
    assert_eq!(BranchTarget::Alias(None).label(), "alias");
}

#[test]
fn header_writer() {
    let mut writer = HeaderWriter::new();
    writer.push(b"key", b"value");
    writer.push(b"", b"\n\n");
    writer.push_authorship(b"who", b"N", -42, b"+0000");
    assert_eq!(writer.build(Some(b"msg")), b"key value\n \n \n \nwho N -42 +0000\n\nmsg");
    assert_eq!(HeaderWriter::default().build(None), b"");
    assert_eq!(HeaderWriter::new().build(Some(b"")), b"\n");
}

#[test]
fn object_headers() {
    assert_eq!(swhid_object_header("snapshot", 10), b"snapshot 10\0");
    assert_eq!(swhid_object_header("", 0), b" 0\0");
    assert_eq!(
        swhid_object_header("blob", usize::MAX),
        format!("blob {}\0", usize::MAX).as_bytes()
    );
    assert_eq!(hash_swhid_object("blob", b"x"), hash_content(b"x"));
    assert_ne!(hash_swhid_object("tree", b"x"), hash_content(b"x"));
    assert_eq!(ObjectType::Content.header_label(), "blob");
    assert_eq!(ObjectType::Directory.header_label(), "tree");
    assert_eq!(ObjectType::Revision.header_label(), "commit");
    assert_eq!(ObjectType::Release.header_label(), "tag");
    assert_eq!(ObjectType::Snapshot.header_label(), "snapshot");
}

#[test]
fn every_byte_of_a_content_counts() {
    let base = b"some content".to_vec();
    let digest = hash_content(&base);
    for i in 0..base.len() {
        let mut changed = base.clone();
        changed[i] ^= 1;
        assert_ne!(hash_content(&changed), digest);
    }
    let mut longer = base.clone();
    longer.push(0);
    assert_ne!(hash_content(&longer), digest);
    assert_eq!(hash_content(&base.clone()), digest);
}

#[test]
fn content() {
    let empty = Content::from_bytes(Vec::new());
    assert!(empty.is_empty());
    assert_eq!(empty.len(), 0);
    assert_eq!(
        empty.swhid().to_string(),
        "swh:1:cnt:e69de29bb2d1d6434b8b29ae775ad8c2e48c5391"
    );
    let hello = Content::from_bytes(b"Hello, World!".to_vec());
    assert!(!hello.is_empty());
    assert_eq!(hello.len(), 13);
    assert_eq!(hello.as_bytes(), b"Hello, World!");
    assert_eq!(
        hello.swhid().to_string(),
        "swh:1:cnt:b45ef6fec89518d314f546fd6c3025367b721684"
    );
    // computed anew at each call, with the same result
    assert_eq!(hello.swhid(), hello.swhid());
    assert_eq!(hello.swhid().object_type(), ObjectType::Content);
    assert_eq!(hello.swhid().digest_bytes(), &hash_content(b"Hello, World!"));
    assert_eq!(
        Swhid::of_object(ObjectType::Content, b"Hello, World!"),
        hello.swhid()
    );
    assert_ne!(
        Swhid::of_object(ObjectType::Directory, b""),
        Swhid::of_object(ObjectType::Snapshot, b"")
    );
}

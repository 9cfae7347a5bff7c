use swhid::git::{
    direct_branch, oid_to_array, parse_object_with_header, parse_signature, reference_to_branch,
    release_from_git, release_swhid, revision_from_git, revision_swhid, snapshot_from_git,
    snapshot_swhid, tag_reference, CommitFacts, GitObjectKind, ReferenceFacts, ReferenceKind,
    ReferenceStep, SignatureFacts, TagFacts,
};
use swhid::release::{Release, ReleaseTargetType};
use swhid::revision::Revision;
use swhid::snapshot::{Branch, BranchTarget, Snapshot};

fn bs(s: &'static str) -> Vec<u8> {
    s.as_bytes().into()
}

fn digest(hex_text: &str) -> [u8; 20] {
    hex::decode(hex_text).unwrap().try_into().unwrap()
}

fn test_user() -> SignatureFacts {
    SignatureFacts {
        name: bs("Test User"),
        email: bs("test@example.com"),
        seconds: 1763027354,
        offset_minutes: 60,
        sign: b'+',
    }
}

const TREE: &str = "0efb37b28c53c7e4fbd253bb04a4df14008f63fe";
const COMMIT: &str = "07cde6575fb633ef9b5ecbe730e6eb97475a2fd9";
const TAG: &str = "46d326edb8bfc49b757ccd09930365595806bfc0";

fn plain_commit() -> CommitFacts {
    CommitFacts {
        tree: digest(TREE).to_vec(),
        parents: Vec::new(),
        author: test_user(),
        committer: test_user(),
        raw_header: bs("tree 0efb37b28c53c7e4fbd253bb04a4df14008f63fe\n\
            author Test User <test@example.com> 1763027354 +0100\n\
            committer Test User <test@example.com> 1763027354 +0100\n"),
        message: bs("Test commit"),
    }
}

#[test]
fn test_revision_swhid() {
    let commit = plain_commit();
    let tree_hash = digest(TREE);

    let rev = revision_from_git(&commit).unwrap();
    assert_eq!(
        rev,
        Revision {
            directory: tree_hash,
            parents: Vec::new(),
            author: bs("Test User <test@example.com>"),
            author_timestamp: 1763027354,
            author_timestamp_offset: bs("+0100"),
            committer: bs("Test User <test@example.com>"),
            committer_timestamp: 1763027354,
            committer_timestamp_offset: bs("+0100"),
            extra_headers: Vec::new(),
            message: Some(bs("Test commit")),
        }
    );

    let swhid = revision_swhid(&commit).unwrap();
    assert_eq!(
        swhid.to_string(),
        "swh:1:rev:07cde6575fb633ef9b5ecbe730e6eb97475a2fd9"
    );
}

#[test]
fn test_signed_revision_swhid() {
    let tree_hash = digest(TREE);
    let gpgsig = "-----BEGIN PGP SIGNATURE-----\nblah blah blah\n-----END PGP SIGNATURE-----";
    let mut commit = plain_commit();
    commit.raw_header = bs("tree 0efb37b28c53c7e4fbd253bb04a4df14008f63fe\n\
        author Test User <test@example.com> 1763027354 +0100\n\
        committer Test User <test@example.com> 1763027354 +0100\n\
        gpgsig -----BEGIN PGP SIGNATURE-----\n blah blah blah\n -----END PGP SIGNATURE-----\n");

    let rev = revision_from_git(&commit).unwrap();
    assert_eq!(
        rev,
        Revision {
            directory: tree_hash,
            parents: Vec::new(),
            author: bs("Test User <test@example.com>"),
            author_timestamp: 1763027354,
            author_timestamp_offset: bs("+0100"),
            committer: bs("Test User <test@example.com>"),
            committer_timestamp: 1763027354,
            committer_timestamp_offset: bs("+0100"),
            extra_headers: vec![(bs("gpgsig"), bs(gpgsig))],
            message: Some(bs("Test commit")),
        }
    );

    let swhid = revision_swhid(&commit).unwrap();
    assert_eq!(
        swhid.to_string(),
        "swh:1:rev:c488a708317e88a4059d6e990f5d9004c4a4c205"
    );
}

#[test]
fn test_release_swhid() {
    let tree_hash = digest(TREE);
    let tag = TagFacts {
        target: tree_hash.to_vec(),
        target_kind: Some(GitObjectKind::Tree),
        name: bs("v1.0"),
        tagger: Some(test_user()),
        message: Some(bs("Test tag")),
    };

    let rev = release_from_git(&tag).unwrap();
    assert_eq!(
        rev,
        Release {
            object: tree_hash,
            object_type: ReleaseTargetType::Directory,
            name: bs("v1.0"),
            author: Some(bs("Test User <test@example.com>")),
            author_timestamp: Some(1763027354),
            author_timestamp_offset: Some(bs("+0100")),
            extra_headers: Vec::new(),
            message: Some(bs("Test tag")),
        }
    );

    let swhid = release_swhid(&tag).unwrap();
    assert_eq!(
        swhid.to_string(),
        "swh:1:rel:46d326edb8bfc49b757ccd09930365595806bfc0"
    );
}

fn direct(name: &'static str, target: [u8; 20], is_tag: bool) -> ReferenceFacts {
    ReferenceFacts {
        name: bs(name),
        is_branch: !is_tag,
        is_tag,
        kind: Some(ReferenceKind::Direct),
        target: Some(target.to_vec()),
        symbolic_target: None,
    }
}

fn branch_of(reference: ReferenceFacts, kind: Option<GitObjectKind>) -> Option<Branch> {
    match reference_to_branch(reference).unwrap() {
        ReferenceStep::Skip => None,
        ReferenceStep::Branch(branch) => Some(branch),
        ReferenceStep::LookUp { name, target } => Some(direct_branch(name, target, kind)),
    }
}

#[test]
fn test_snapshot_swhid() {
    let tree_hash = digest(TREE);
    let commit_hash = digest(COMMIT);
    let tag_hash = digest(TAG);

    let branches = || {
        vec![
            branch_of(
                direct("refs/heads/tree-branch", tree_hash, false),
                Some(GitObjectKind::Tree),
            )
            .unwrap(),
            branch_of(
                direct("refs/heads/main", commit_hash, false),
                Some(GitObjectKind::Commit),
            )
            .unwrap(),
            branch_of(
                direct("refs/tags/v1.0", tag_hash, true),
                Some(GitObjectKind::Tag),
            )
            .unwrap(),
        ]
    };
    let head = || {
        branch_of(
            direct("refs/heads/main", commit_hash, false),
            Some(GitObjectKind::Commit),
        )
    };

    let snp = snapshot_from_git(branches(), head()).unwrap();
    assert_eq!(
        snp,
        Snapshot::new(vec![
            Branch {
                name: bs("HEAD"),
                target: BranchTarget::Alias(Some(bs("refs/heads/main"))),
            },
            Branch {
                name: bs("refs/heads/main"),
                target: BranchTarget::Revision(Some(commit_hash)),
            },
            Branch {
                name: bs("refs/tags/v1.0"),
                target: BranchTarget::Release(Some(tag_hash)),
            },
            Branch {
                name: bs("refs/heads/tree-branch"),
                target: BranchTarget::Directory(Some(tree_hash)),
            },
        ])
        .unwrap(),
    );

    assert_eq!(
        snapshot_swhid(branches(), head()).unwrap().to_string(),
        "swh:1:snp:a0bfd8450daaf74c55c2375f21e40745bc5f95b7"
    );
}

#[test]
fn headers_end_at_the_empty_line() {
    let (headers, message) =
        parse_object_with_header(b"tree abc\nparent def\n\nthe message\nmore").unwrap();
    assert_eq!(
        headers,
        vec![(bs("tree"), bs("abc")), (bs("parent"), bs("def"))]
    );
    assert_eq!(message, b"the message\nmore");
}

#[test]
fn headers_without_message() {
    let (headers, message) = parse_object_with_header(b"key value with spaces\n").unwrap();
    assert_eq!(headers, vec![(bs("key"), bs("value with spaces"))]);
    assert_eq!(message, b"");

    let (headers, message) = parse_object_with_header(b"").unwrap();
    assert!(headers.is_empty());
    assert_eq!(message, b"");
}

#[test]
fn header_value_is_unfolded() {
    let (headers, message) =
        parse_object_with_header(b"sig one\n two\n \n three\nnext v\n\nm").unwrap();
    assert_eq!(
        headers,
        vec![(bs("sig"), bs("one\ntwo\n\nthree")), (bs("next"), bs("v"))]
    );
    assert_eq!(message, b"m");
}

#[test]
fn header_errors() {
    let e = parse_object_with_header(b"tree abc").unwrap_err();
    assert_eq!(e.to_string(), "I/O error: Header line is missing a line end");
    let e = parse_object_with_header(b"treeabc\n").unwrap_err();
    assert_eq!(e.to_string(), "I/O error: Header line is missing a value");
    let e = parse_object_with_header(b" abc\n").unwrap_err();
    assert_eq!(e.to_string(), "I/O error: Empty key");
    // a line that continues a value must end in a line feed too
    let e = parse_object_with_header(b"k v\n rest").unwrap_err();
    assert_eq!(e.to_string(), "I/O error: Header line is missing a line end");
}

#[test]
fn signature_offsets() {
    let mut sig = test_user();
    assert_eq!(parse_signature(&sig).2, b"+0100");
    sig.offset_minutes = 0;
    assert_eq!(parse_signature(&sig).2, b"+0000");
    sig.offset_minutes = 330;
    assert_eq!(parse_signature(&sig).2, b"+0530");
    sig.offset_minutes = 765;
    assert_eq!(parse_signature(&sig).2, b"+1245");
    sig.sign = b'-';
    sig.offset_minutes = 0;
    assert_eq!(parse_signature(&sig).2, b"-0000");
    // a negative offset keeps its sign in the hours and in the minutes
    sig.offset_minutes = -90;
    assert_eq!(parse_signature(&sig).2, b"--1-30");
    let (name, seconds, _) = parse_signature(&sig);
    assert_eq!(name, b"Test User <test@example.com>");
    assert_eq!(seconds, 1763027354);
}

#[test]
fn oid_must_have_twenty_bytes() {
    assert_eq!(oid_to_array(&[7u8; 20]).unwrap(), [7u8; 20]);
    let e = oid_to_array(&[7u8; 19]).unwrap_err();
    assert_eq!(
        e.to_string(),
        "I/O error: Unexpected tree_oid length: could not convert slice to array"
    );
    assert!(oid_to_array(&[7u8; 21]).is_err());
    assert!(oid_to_array(&[]).is_err());
}

#[test]
fn revision_with_short_ids_is_refused() {
    let mut commit = plain_commit();
    commit.tree = vec![1, 2, 3];
    assert!(revision_from_git(&commit).is_err());
    let mut commit = plain_commit();
    commit.parents = vec![digest(COMMIT).to_vec(), vec![0u8; 4]];
    assert!(revision_from_git(&commit).is_err());
    let mut commit = plain_commit();
    commit.parents = vec![digest(COMMIT).to_vec(), digest(TAG).to_vec()];
    let rev = revision_from_git(&commit).unwrap();
    assert_eq!(rev.parents, vec![digest(COMMIT), digest(TAG)]);
}

#[test]
fn revision_with_broken_header_is_refused() {
    let mut commit = plain_commit();
    commit.raw_header = bs("tree 0efb37b28c53c7e4fbd253bb04a4df14008f63fe");
    let e = revision_from_git(&commit).unwrap_err();
    assert_eq!(e.to_string(), "I/O error: Header line is missing a line end");
    assert!(revision_swhid(&commit).is_err());
}

#[test]
fn structural_headers_are_left_out() {
    let mut commit = plain_commit();
    commit.raw_header = bs("tree t\nparent p\nencoding latin1\nauthor a\ncommitter c\nx y\n");
    let rev = revision_from_git(&commit).unwrap();
    assert_eq!(
        rev.extra_headers,
        vec![(bs("encoding"), bs("latin1")), (bs("x"), bs("y"))]
    );
}

#[test]
fn release_targets() {
    let tag = |kind| TagFacts {
        target: digest(TREE).to_vec(),
        target_kind: kind,
        name: bs("v"),
        tagger: None,
        message: None,
    };
    let kind_of = |kind| release_from_git(&tag(kind)).unwrap().object_type;
    assert_eq!(kind_of(Some(GitObjectKind::Commit)), ReleaseTargetType::Revision);
    assert_eq!(kind_of(Some(GitObjectKind::Tree)), ReleaseTargetType::Directory);
    assert_eq!(kind_of(Some(GitObjectKind::Blob)), ReleaseTargetType::Content);
    assert_eq!(kind_of(Some(GitObjectKind::Tag)), ReleaseTargetType::Release);
    let e = release_from_git(&tag(None)).unwrap_err();
    assert_eq!(e.to_string(), "I/O error: Unknown target type");
    assert!(release_from_git(&tag(Some(GitObjectKind::Any))).is_err());
    assert!(release_swhid(&tag(None)).is_err());
    let rel = release_from_git(&tag(Some(GitObjectKind::Commit))).unwrap();
    assert_eq!(rel.author, None);
    assert_eq!(rel.author_timestamp, None);
    assert_eq!(rel.author_timestamp_offset, None);
    assert_eq!(rel.message, None);
    let mut short = tag(Some(GitObjectKind::Commit));
    short.target = vec![1];
    assert!(release_from_git(&short).is_err());
}

#[test]
fn references_that_are_no_branches_are_left_out() {
    let mut reference = direct("refs/notes/commits", digest(COMMIT), false);
    reference.is_branch = false;
    assert!(matches!(
        reference_to_branch(reference).unwrap(),
        ReferenceStep::Skip
    ));
}

#[test]
fn reference_kinds() {
    let dangling = ReferenceFacts {
        name: bs("refs/heads/gone"),
        is_branch: true,
        is_tag: false,
        kind: None,
        target: None,
        symbolic_target: None,
    };
    assert_eq!(
        branch_of(dangling.clone(), None),
        Some(Branch::new(bs("refs/heads/gone"), BranchTarget::Revision(None)))
    );

    let mut odd = dangling.clone();
    odd.target = Some(digest(COMMIT).to_vec());
    assert_eq!(
        reference_to_branch(odd).unwrap_err().to_string(),
        "I/O error: Reference refs/heads/gone has None kind, but has a target"
    );
    let mut odd = dangling.clone();
    odd.symbolic_target = Some(bs("refs/heads/main"));
    assert_eq!(
        reference_to_branch(odd).unwrap_err().to_string(),
        "I/O error: Reference refs/heads/gone has None kind, but has a symbolic target"
    );

    let mut symbolic = dangling.clone();
    symbolic.kind = Some(ReferenceKind::Symbolic);
    assert_eq!(
        reference_to_branch(symbolic.clone()).unwrap_err().to_string(),
        "I/O error: Reference refs/heads/gone has Symbolic kind, but has no symbolic target"
    );
    symbolic.symbolic_target = Some(bs("refs/heads/main"));
    assert_eq!(
        branch_of(symbolic, None),
        Some(Branch::new(
            bs("refs/heads/gone"),
            BranchTarget::Alias(Some(bs("refs/heads/main")))
        ))
    );

    let mut no_target = dangling.clone();
    no_target.kind = Some(ReferenceKind::Direct);
    assert_eq!(
        reference_to_branch(no_target.clone()).unwrap_err().to_string(),
        "I/O error: Reference refs/heads/gone has Direct kind, but has no target"
    );
    no_target.target = Some(vec![1, 2]);
    assert!(reference_to_branch(no_target).is_err());
}

#[test]
fn direct_branch_kinds() {
    let id = digest(COMMIT);
    let target = |kind| direct_branch(bs("b"), id, kind).target;
    assert_eq!(target(None), BranchTarget::Revision(Some(id)));
    assert_eq!(target(Some(GitObjectKind::Commit)), BranchTarget::Revision(Some(id)));
    assert_eq!(target(Some(GitObjectKind::Tree)), BranchTarget::Directory(Some(id)));
    assert_eq!(target(Some(GitObjectKind::Blob)), BranchTarget::Content(Some(id)));
    assert_eq!(target(Some(GitObjectKind::Tag)), BranchTarget::Release(Some(id)));
}

#[test]
fn snapshot_without_head() {
    let branches = vec![Branch::new(bs("refs/heads/main"), BranchTarget::Revision(Some([1; 20])))];
    let snp = snapshot_from_git(branches.clone(), None).unwrap();
    assert_eq!(snp, Snapshot::new(branches).unwrap());
}

#[test]
fn snapshot_that_is_refused() {
    let branches = vec![
        Branch::new(bs("HEAD"), BranchTarget::Revision(Some([1; 20]))),
        Branch::new(bs("refs/heads/main"), BranchTarget::Revision(Some([1; 20]))),
    ];
    let head = Some(Branch::new(bs("refs/heads/main"), BranchTarget::Revision(Some([1; 20]))));
    let e = snapshot_from_git(branches.clone(), head.clone()).unwrap_err();
    assert_eq!(
        e.to_string(),
        "I/O error: Invalid snapshot: Duplicate branch name: HEAD"
    );
    assert!(snapshot_swhid(branches, head).is_err());
}

#[test]
fn tag_reference_name() {
    assert_eq!(tag_reference("v1.0"), "refs/tags/v1.0");
    assert_eq!(tag_reference(""), "refs/tags/");
}

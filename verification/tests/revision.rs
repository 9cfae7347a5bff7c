use swhid::revision::{rev_manifest, Revision};

fn bs(s: &'static str) -> Vec<u8> {
    s.as_bytes().into()
}

#[test]
fn simple_rev_hash() {
    let tree_hash = hex::decode("0efb37b28c53c7e4fbd253bb04a4df14008f63fe").unwrap().try_into().unwrap();

    let rev = Revision {
        directory: tree_hash,
        parents: Vec::new(),
        author: bs("Test User <test@example.com>"),
        author_timestamp: 1763027354,
        author_timestamp_offset: bs("+0100"),
        committer: bs("Test User <test@example.com>"),
        committer_timestamp: 1763027354,
        committer_timestamp_offset: bs("+0100"),
        extra_headers: Vec::new(),
        message: Some(bs("Test commit")),
    };

    assert_eq!(
        rev_manifest(&rev),
        b"\
        tree 0efb37b28c53c7e4fbd253bb04a4df14008f63fe\n\
        author Test User <test@example.com> 1763027354 +0100\n\
        committer Test User <test@example.com> 1763027354 +0100\n\
        \n\
        Test commit\
        "
    );

    assert_eq!(
        rev.swhid().to_string(),
        "swh:1:rev:07cde6575fb633ef9b5ecbe730e6eb97475a2fd9"
    );
}

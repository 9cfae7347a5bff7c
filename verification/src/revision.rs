//! Revisions: the facts of a commit, their manifest, and the identifier.

use vstd::prelude::*;
use vstd::string::*;
use crate::hash::{commit_label, object_digest};
use crate::hexstr::{hex_bytes, hex_encoding};
use crate::identifier::{ObjectType, Swhid, SwhidView};
use crate::utils::{
    authorship, header_line, header_lines, headers_view, message_part, optional_view, HeaderWriter,
};

verus! {

/// The facts of a revision.
#[derive(Debug, Clone, PartialEq, Eq)]
pub struct Revision {
    /// The digest of the directory of the revision.
    pub directory: [u8; 20],
    /// The digests of the parents, in their order.
    pub parents: Vec<[u8; 20]>,
    /// The name and address of the author.
    pub author: Vec<u8>,
    /// When the author wrote it, in seconds since the epoch.
    pub author_timestamp: i64,
    /// The offset of the author's time zone, as it is written.
    pub author_timestamp_offset: Vec<u8>,
    /// The name and address of the committer.
    pub committer: Vec<u8>,
    /// When it was committed, in seconds since the epoch.
    pub committer_timestamp: i64,
    /// The offset of the committer's time zone, as it is written.
    pub committer_timestamp_offset: Vec<u8>,
    /// The other headers, each a key and a value, in their order.
    pub extra_headers: Vec<(Vec<u8>, Vec<u8>)>,
    /// The message, where there is one.
    pub message: Option<Vec<u8>>,
}

/// A revision with its bytes as sequences.
pub struct RevisionView {
    pub directory: Seq<u8>,
    pub parents: Seq<Seq<u8>>,
    pub author: Seq<u8>,
    pub author_timestamp: int,
    pub author_timestamp_offset: Seq<u8>,
    pub committer: Seq<u8>,
    pub committer_timestamp: int,
    pub committer_timestamp_offset: Seq<u8>,
    pub extra_headers: Seq<(Seq<u8>, Seq<u8>)>,
    pub message: Option<Seq<u8>>,
}

impl View for Revision {
    type V = RevisionView;

    open spec fn view(&self) -> RevisionView {
        RevisionView {
            directory: self.directory@,
            parents: self.parents@.map_values(|p: [u8; 20]| p@),
            author: self.author@,
            author_timestamp: self.author_timestamp as int,
            author_timestamp_offset: self.author_timestamp_offset@,
            committer: self.committer@,
            committer_timestamp: self.committer_timestamp as int,
            committer_timestamp_offset: self.committer_timestamp_offset@,
            extra_headers: headers_view(self.extra_headers@),
            message: optional_view(self.message),
        }
    }
}

/// The key `tree`.
pub open spec fn tree_key() -> Seq<u8> {
    seq![116u8, 114u8, 101u8, 101u8]
}

/// The key `parent`.
pub open spec fn parent_key() -> Seq<u8> {
    seq![112u8, 97u8, 114u8, 101u8, 110u8, 116u8]
}

/// The key `author`.
pub open spec fn author_key() -> Seq<u8> {
    seq![97u8, 117u8, 116u8, 104u8, 111u8, 114u8]
}

/// The key `committer`.
pub open spec fn committer_key() -> Seq<u8> {
    seq![99u8, 111u8, 109u8, 109u8, 105u8, 116u8, 116u8, 101u8, 114u8]
}

/// One line `parent <digest in hexadecimal>` for each parent, in their
/// order.
pub open spec fn parent_lines(parents: Seq<Seq<u8>>) -> Seq<u8>
    decreases parents.len(),
{
    if parents.len() == 0 {
        Seq::empty()
    } else {
        parent_lines(parents.drop_last()) + header_line(parent_key(), hex_encoding(parents.last()))
    }
}

impl RevisionView {
    /// The manifest of the revision: the line of the directory, the lines
    /// of the parents, of the author and of the committer, the other
    /// headers, and the message.
    pub open spec fn manifest(self) -> Seq<u8> {
        header_line(tree_key(), hex_encoding(self.directory)) + parent_lines(self.parents)
            + header_line(
            author_key(),
            authorship(self.author, self.author_timestamp, self.author_timestamp_offset),
        ) + header_line(
            committer_key(),
            authorship(self.committer, self.committer_timestamp, self.committer_timestamp_offset),
        ) + header_lines(self.extra_headers) + message_part(self.message)
    }
}

/// The bytes of the four keys.
proof fn lemma_keys()
    ensures
        "tree".spec_bytes() == tree_key(),
        "parent".spec_bytes() == parent_key(),
        "author".spec_bytes() == author_key(),
        "committer".spec_bytes() == committer_key(),
{
    broadcast use is_ascii_spec_bytes;

    reveal_strlit("tree");
    reveal_strlit("parent");
    reveal_strlit("author");
    reveal_strlit("committer");
    assert(is_ascii("tree"));
    assert(is_ascii("parent"));
    assert(is_ascii("author"));
    assert(is_ascii("committer"));
    assert("tree".spec_bytes() =~= tree_key());
    assert("parent".spec_bytes() =~= parent_key());
    assert("author".spec_bytes() =~= author_key());
    assert("committer".spec_bytes() =~= committer_key());
}

/// The manifest of the revision `rev`.
pub fn rev_manifest(rev: &Revision) -> (r: Vec<u8>)
    ensures
        r@ == rev@.manifest(),
{
    proof {
        lemma_keys();
    }
    let mut writer = HeaderWriter::new();
    let directory = hex_bytes(rev.directory.as_slice());
    writer.push("tree".as_bytes(), directory.as_slice());
    let ghost first = writer@;
    let ghost parents = rev@.parents;
    let mut i: usize = 0;
    assert(parents.take(0) =~= Seq::<Seq<u8>>::empty());
    while i < rev.parents.len()
        invariant
            i <= rev.parents.len(),
            parents == rev@.parents,
            "parent".spec_bytes() == parent_key(),
            writer@ == first + parent_lines(parents.take(i as int)),
        decreases rev.parents.len() - i,
    {
        let parent = hex_bytes(rev.parents[i].as_slice());
        writer.push("parent".as_bytes(), parent.as_slice());
        i += 1;
        proof {
            let done = parents.take(i as int);
            assert(done.drop_last() =~= parents.take(i - 1));
            assert(done.last() == rev.parents@[i - 1]@);
            assert(writer@ =~= first + parent_lines(done));
        }
    }
    assert(parents.take(rev.parents.len() as int) =~= parents);
    writer.push_authorship(
        "author".as_bytes(),
        rev.author.as_slice(),
        rev.author_timestamp,
        rev.author_timestamp_offset.as_slice(),
    );
    writer.push_authorship(
        "committer".as_bytes(),
        rev.committer.as_slice(),
        rev.committer_timestamp,
        rev.committer_timestamp_offset.as_slice(),
    );
    writer.push_all(&rev.extra_headers);
    let r = match &rev.message {
        Some(m) => writer.build(Some(m.as_slice())),
        None => writer.build(None),
    };
    assert(r@ =~= rev@.manifest());
    r
}

impl Revision {
    /// The identifier of the revision: its type is `Revision`, its digest
    /// that of the object `commit` with the manifest as payload.
    pub fn swhid(&self) -> (r: Swhid)
        ensures
            r@ == (SwhidView {
                object_type: ObjectType::Revision,
                digest: object_digest(commit_label(), self@.manifest()),
            }),
    {
        let manifest = rev_manifest(self);
        Swhid::of_object(ObjectType::Revision, manifest.as_slice())
    }
}

} // verus!

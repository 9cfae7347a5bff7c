//! Releases: the facts of an annotated tag, their manifest, and the
//! identifier.

use vstd::prelude::*;
use vstd::string::*;
use crate::hash::{lemma_labels, object_digest, tag_label};
use crate::hexstr::{hex_bytes, hex_encoding};
use crate::identifier::{ObjectType, Swhid, SwhidView};
use crate::utils::{
    authorship, header_line, header_lines, headers_view, message_part, optional_view, HeaderWriter,
};

verus! {

/// The kinds of object that a release can name.
#[derive(Debug, Clone, Copy, PartialEq, Eq, Hash, Structural)]
pub enum ReleaseTargetType {
    Revision,
    Directory,
    Release,
    Content,
}

impl ReleaseTargetType {
    /// The label of the kind in a manifest: `commit`, `tree`, `tag` or
    /// `blob`.
    pub open spec fn label(self) -> Seq<u8> {
        match self {
            ReleaseTargetType::Revision => seq![99u8, 111u8, 109u8, 109u8, 105u8, 116u8],
            ReleaseTargetType::Directory => seq![116u8, 114u8, 101u8, 101u8],
            ReleaseTargetType::Release => seq![116u8, 97u8, 103u8],
            ReleaseTargetType::Content => seq![98u8, 108u8, 111u8, 98u8],
        }
    }
}

/// The facts of a release.
#[derive(Debug, Clone, PartialEq, Eq, Hash)]
pub struct Release {
    /// The digest of the object that the release names.
    pub object: [u8; 20],
    /// The kind of that object.
    pub object_type: ReleaseTargetType,
    /// The name of the release.
    pub name: Vec<u8>,
    /// The name and address of the author.
    pub author: Option<Vec<u8>>,
    /// When the author made it, in seconds since the epoch.
    pub author_timestamp: Option<i64>,
    /// The offset of the author's time zone, as it is written.
    pub author_timestamp_offset: Option<Vec<u8>>,
    /// The other headers, each a key and a value, in their order.
    pub extra_headers: Vec<(Vec<u8>, Vec<u8>)>,
    /// The message, where there is one.
    pub message: Option<Vec<u8>>,
}

/// A release with its bytes as sequences.
pub struct ReleaseView {
    pub object: Seq<u8>,
    pub object_type: ReleaseTargetType,
    pub name: Seq<u8>,
    pub author: Option<Seq<u8>>,
    pub author_timestamp: Option<i64>,
    pub author_timestamp_offset: Option<Seq<u8>>,
    pub extra_headers: Seq<(Seq<u8>, Seq<u8>)>,
    pub message: Option<Seq<u8>>,
}

impl View for Release {
    type V = ReleaseView;

    open spec fn view(&self) -> ReleaseView {
        ReleaseView {
            object: self.object@,
            object_type: self.object_type,
            name: self.name@,
            author: optional_view(self.author),
            author_timestamp: self.author_timestamp,
            author_timestamp_offset: optional_view(self.author_timestamp_offset),
            extra_headers: headers_view(self.extra_headers@),
            message: optional_view(self.message),
        }
    }
}

/// The key `object`.
pub open spec fn object_key() -> Seq<u8> {
    seq![111u8, 98u8, 106u8, 101u8, 99u8, 116u8]
}

/// The key `type`.
pub open spec fn type_key() -> Seq<u8> {
    seq![116u8, 121u8, 112u8, 101u8]
}

/// The key `tag`.
pub open spec fn tag_key() -> Seq<u8> {
    seq![116u8, 97u8, 103u8]
}

/// The key `tagger`.
pub open spec fn tagger_key() -> Seq<u8> {
    seq![116u8, 97u8, 103u8, 103u8, 101u8, 114u8]
}

impl ReleaseView {
    /// The line of the author: it is written where the author, the time and
    /// the offset are all three there, and left out where any is absent.
    pub open spec fn tagger_line(self) -> Seq<u8> {
        if self.author is Some && self.author_timestamp is Some && self.author_timestamp_offset
            is Some {
            header_line(
                tagger_key(),
                authorship(
                    self.author->Some_0,
                    self.author_timestamp->Some_0 as int,
                    self.author_timestamp_offset->Some_0,
                ),
            )
        } else {
            Seq::empty()
        }
    }

    /// The manifest of the release: the lines of the object, of its kind
    /// and of the name, the line of the author, the other headers, and the
    /// message.
    pub open spec fn manifest(self) -> Seq<u8> {
        header_line(object_key(), hex_encoding(self.object)) + header_line(
            type_key(),
            self.object_type.label(),
        ) + header_line(tag_key(), self.name) + self.tagger_line() + header_lines(
            self.extra_headers,
        ) + message_part(self.message)
    }
}

/// The bytes of the four keys and of the four labels.
proof fn lemma_keys()
    ensures
        "object".spec_bytes() == object_key(),
        "type".spec_bytes() == type_key(),
        "tag".spec_bytes() == tag_key(),
        "tagger".spec_bytes() == tagger_key(),
        "commit".spec_bytes() == ReleaseTargetType::Revision.label(),
        "tree".spec_bytes() == ReleaseTargetType::Directory.label(),
        "tag".spec_bytes() == ReleaseTargetType::Release.label(),
        "blob".spec_bytes() == ReleaseTargetType::Content.label(),
{
    broadcast use is_ascii_spec_bytes;

    reveal_strlit("object");
    reveal_strlit("type");
    reveal_strlit("tag");
    reveal_strlit("tagger");
    assert(is_ascii("object"));
    assert(is_ascii("type"));
    assert(is_ascii("tag"));
    assert(is_ascii("tagger"));
    assert("object".spec_bytes() =~= object_key());
    assert("type".spec_bytes() =~= type_key());
    assert("tag".spec_bytes() =~= tag_key());
    assert("tagger".spec_bytes() =~= tagger_key());
    lemma_labels();
}

/// The manifest of the release `rel`.
pub fn rel_manifest(rel: &Release) -> (r: Vec<u8>)
    ensures
        r@ == rel@.manifest(),
{
    proof {
        lemma_keys();
    }
    let mut writer = HeaderWriter::new();
    let object = hex_bytes(rel.object.as_slice());
    writer.push("object".as_bytes(), object.as_slice());
    let label = match rel.object_type {
        ReleaseTargetType::Revision => "commit",
        ReleaseTargetType::Directory => "tree",
        ReleaseTargetType::Release => "tag",
        ReleaseTargetType::Content => "blob",
    };
    writer.push("type".as_bytes(), label.as_bytes());
    writer.push("tag".as_bytes(), rel.name.as_slice());
    match (&rel.author, &rel.author_timestamp, &rel.author_timestamp_offset) {
        (Some(author), Some(timestamp), Some(offset)) => {
            writer.push_authorship(
                "tagger".as_bytes(),
                author.as_slice(),
                *timestamp,
                offset.as_slice(),
            );
        },
        _ => {
            assert(writer@ =~= writer@ + rel@.tagger_line());
        },
    }
    writer.push_all(&rel.extra_headers);
    let r = match &rel.message {
        Some(m) => writer.build(Some(m.as_slice())),
        None => writer.build(None),
    };
    assert(r@ =~= rel@.manifest());
    r
}

impl Release {
    /// The identifier of the release: its type is `Release`, its digest that
    /// of the object `tag` with the manifest as payload.
    pub fn swhid(&self) -> (r: Swhid)
        ensures
            r@ == (SwhidView {
                object_type: ObjectType::Release,
                digest: object_digest(tag_label(), self@.manifest()),
            }),
    {
        let manifest = rel_manifest(self);
        Swhid::of_object(ObjectType::Release, manifest.as_slice())
    }
}

} // verus!

//! The contents of a file, and their identifier.

use vstd::prelude::*;
use crate::hash::{blob_label, object_digest};
use crate::identifier::{ObjectType, Swhid, SwhidView};

verus! {

/// The contents of a file: any bytes.
#[derive(Debug, Clone)]
pub struct Content {
    bytes: Vec<u8>,
}

impl View for Content {
    type V = Seq<u8>;

    closed spec fn view(&self) -> Seq<u8> {
        self.bytes@
    }
}

impl Content {
    /// The content that holds `bytes`.
    pub fn from_bytes(bytes: Vec<u8>) -> (r: Content)
        ensures
            r@ == bytes@,
    {
        Content { bytes }
    }

    /// The bytes of the content.
    pub fn as_bytes(&self) -> (r: &[u8])
        ensures
            r@ == self@,
    {
        self.bytes.as_slice()
    }

    /// The number of bytes.
    pub fn len(&self) -> (r: usize)
        ensures
            r == self@.len(),
    {
        self.bytes.len()
    }

    /// Whether the content holds no byte.
    pub fn is_empty(&self) -> (r: bool)
        ensures
            r == (self@.len() == 0),
    {
        self.bytes.len() == 0
    }

    /// The identifier of the content: its type is `Content`, its digest that
    /// of the object `blob` with the bytes as payload. It is computed anew
    /// at each call.
    pub fn swhid(&self) -> (r: Swhid)
        ensures
            r@ == (SwhidView {
                object_type: ObjectType::Content,
                digest: object_digest(blob_label(), self@),
            }),
    {
        Swhid::of_object(ObjectType::Content, self.bytes.as_slice())
    }
}

} // verus!

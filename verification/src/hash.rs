//! The object hash: SHA-1, with collision detection, of a typed header
//! followed by the payload.

use vstd::prelude::*;
use vstd::string::*;
use sha1collisiondetection::{Digest, Sha1CD};
use crate::digits::{decimal, lemma_decimal_digits, push_decimal};
use crate::seqs::{extend_bytes, lemma_split_of_join, tail};

verus! {

/// The twenty bytes that `Sha1CD` gives for `data`.
pub uninterp spec fn sha1cd(data: Seq<u8>) -> Seq<u8>;

/// `Sha1CD::digest`, as configured by default: the digest of `data`, which
/// depends on the bytes of `data` alone.
#[verifier::external_body]
fn sha1cd_digest(data: &[u8]) -> (d: [u8; 20])
    ensures
        d@ == sha1cd(data@),
{
    Sha1CD::digest(data).into()
}

/// The header of an object: its label, a space, the length of its payload in
/// decimal, and a NUL byte.
pub open spec fn object_header(label: Seq<u8>, len: nat) -> Seq<u8> {
    label + seq![32u8] + decimal(len) + seq![0u8]
}

/// The bytes that are hashed for an object: its header, then its payload.
pub open spec fn object_bytes(label: Seq<u8>, payload: Seq<u8>) -> Seq<u8> {
    object_header(label, payload.len()) + payload
}

/// The digest of an object.
pub open spec fn object_digest(label: Seq<u8>, payload: Seq<u8>) -> Seq<u8> {
    sha1cd(object_bytes(label, payload))
}

/// The digest of an object is a matter of its label and of the bytes of its
/// payload, and of nothing else: equal bytes have equal digests, whenever and
/// wherever they are hashed.
pub proof fn lemma_digest_of_equal_bytes(label: Seq<u8>, a: Seq<u8>, b: Seq<u8>)
    requires
        a.len() == b.len(),
        forall|i: int| 0 <= i < a.len() ==> a[i] == b[i],
    ensures
        object_digest(label, a) == object_digest(label, b),
{
    assert(a =~= b);
}

/// Objects of one type with payloads that differ are hashed from bytes that
/// differ: the header tells where the payload begins.
pub proof fn lemma_object_bytes_injective(label: Seq<u8>, a: Seq<u8>, b: Seq<u8>)
    requires
        object_bytes(label, a) == object_bytes(label, b),
    ensures
        a == b,
{
    let da = decimal(a.len());
    let db = decimal(b.len());
    let xa = da + seq![0u8] + a;
    let xb = db + seq![0u8] + b;
    let front = label.len() + 1;
    assert(xa =~= object_bytes(label, a).skip(front as int));
    assert(xb =~= object_bytes(label, b).skip(front as int));
    lemma_decimal_digits(a.len());
    lemma_decimal_digits(b.len());
    assert(!da.contains(0u8)) by {
        if da.contains(0u8) {
            let i = choose|i: int| 0 <= i < da.len() && da[i] == 0u8;
            assert(48 <= da[i]);
        }
    }
    assert(!db.contains(0u8)) by {
        if db.contains(0u8) {
            let i = choose|i: int| 0 <= i < db.len() && db[i] == 0u8;
            assert(48 <= db[i]);
        }
    }
    lemma_split_of_join(da, 0u8, a);
    lemma_split_of_join(db, 0u8, b);
    assert(tail(xa, 0u8) == a);
    assert(tail(xb, 0u8) == b);
}

/// The label of a content object, `blob`.
pub open spec fn blob_label() -> Seq<u8> {
    seq![98u8, 108u8, 111u8, 98u8]
}

/// The label of a directory object, `tree`.
pub open spec fn tree_label() -> Seq<u8> {
    seq![116u8, 114u8, 101u8, 101u8]
}

/// The label of a revision object, `commit`.
pub open spec fn commit_label() -> Seq<u8> {
    seq![99u8, 111u8, 109u8, 109u8, 105u8, 116u8]
}

/// The label of a release object, `tag`.
pub open spec fn tag_label() -> Seq<u8> {
    seq![116u8, 97u8, 103u8]
}

/// The label of a snapshot object, `snapshot`.
pub open spec fn snapshot_label() -> Seq<u8> {
    seq![115u8, 110u8, 97u8, 112u8, 115u8, 104u8, 111u8, 116u8]
}

/// The object header `<typ> <len>\0`.
pub fn swhid_object_header(typ: &str, len: usize) -> (v: Vec<u8>)
    ensures
        v@ == object_header(typ.spec_bytes(), len as nat),
{
    let mut v: Vec<u8> = Vec::new();
    extend_bytes(&mut v, typ.as_bytes());
    v.push(32u8);
    push_decimal(&mut v, len as u64);
    v.push(0u8);
    v
}

/// The digest of the object of type `typ` with the payload `payload`.
pub fn hash_swhid_object(typ: &str, payload: &[u8]) -> (d: [u8; 20])
    ensures
        d@ == object_digest(typ.spec_bytes(), payload@),
{
    let mut object = swhid_object_header(typ, payload.len());
    extend_bytes(&mut object, payload);
    sha1cd_digest(object.as_slice())
}

/// The digest of the content `data`.
pub fn hash_content(data: &[u8]) -> (d: [u8; 20])
    ensures
        d@ == object_digest(blob_label(), data@),
{
    proof {
        lemma_labels();
    }
    hash_swhid_object("blob", data)
}

/// The bytes of the five labels.
pub proof fn lemma_labels()
    ensures
        "blob".spec_bytes() == blob_label(),
        "tree".spec_bytes() == tree_label(),
        "commit".spec_bytes() == commit_label(),
        "tag".spec_bytes() == tag_label(),
        "snapshot".spec_bytes() == snapshot_label(),
{
    broadcast use is_ascii_spec_bytes;

    reveal_strlit("blob");
    reveal_strlit("tree");
    reveal_strlit("commit");
    reveal_strlit("tag");
    reveal_strlit("snapshot");
    assert(is_ascii("blob"));
    assert(is_ascii("tree"));
    assert(is_ascii("commit"));
    assert(is_ascii("tag"));
    assert(is_ascii("snapshot"));
    assert("blob".spec_bytes() =~= blob_label());
    assert("tree".spec_bytes() =~= tree_label());
    assert("commit".spec_bytes() =~= commit_label());
    assert("tag".spec_bytes() =~= tag_label());
    assert("snapshot".spec_bytes() =~= snapshot_label());
}

} // verus!

//! From the facts of a Git repository to revisions, releases and snapshots.
//! The facts come as plain values: this module opens no repository.

use vstd::prelude::*;
use vstd::slice::slice_subrange;
use vstd::string::*;
use crate::digits::{digit_byte, push_signed_decimal, signed_decimal};
use crate::error::{SnapshotError, SwhidError, SwhidErrorView};
use crate::hash::{commit_label, object_digest, snapshot_label, tag_label};
use crate::identifier::{ObjectType, Swhid, SwhidView};
use crate::release::{Release, ReleaseTargetType, ReleaseView};
use crate::revision::{Revision, RevisionView};
use crate::seqs::{
    copy_bytes, extend_bytes, find_byte, has_tail, head, lemma_first_index, lemma_tail_shorter,
    tail,
};
use crate::snapshot::{
    refused_branches, snapshot_manifest, Branch, BranchTarget, BranchTargetView, BranchView,
    Snapshot, TargetKind,
};
use crate::sorting::views;
use crate::text::{lossy_string, lossy_text};
use crate::utils::headers_view;

verus! {

/// The error for what a repository holds or fails to hold.
pub fn io_error(msg: String) -> (r: SwhidError)
    ensures
        r@ == SwhidErrorView::Io(msg@),
{
    SwhidError::Io(msg)
}

/// The digest that the bytes of an object id are. An id that is not twenty
/// bytes long is an error.
pub fn oid_to_array(oid: &[u8]) -> (r: Result<[u8; 20], SwhidError>)
    ensures
        match r {
            Ok(d) => oid@.len() == 20 && d@ == oid@,
            Err(e) => oid@.len() != 20 && e@ == SwhidErrorView::Io(
                "Unexpected tree_oid length: could not convert slice to array"@,
            ),
        },
{
    if oid.len() != 20 {
        return Err(
            io_error(
                String::from_str("Unexpected tree_oid length: could not convert slice to array"),
            ),
        );
    }
    let mut d: [u8; 20] = [0u8; 20];
    let mut i: usize = 0;
    while i < 20
        invariant
            i <= 20,
            oid@.len() == 20,
            forall|j: int| 0 <= j < i ==> d@[j] == oid@[j],
        decreases 20 - i,
    {
        d[i] = oid[i];
        i += 1;
    }
    assert(d@ =~= oid@);
    Ok(d)
}

/// Who did something and when, as Git holds it.
#[derive(Debug, Clone, PartialEq, Eq)]
pub struct SignatureFacts {
    /// The name.
    pub name: Vec<u8>,
    /// The address.
    pub email: Vec<u8>,
    /// The time, in seconds since the epoch.
    pub seconds: i64,
    /// The offset of the time zone, in minutes.
    pub offset_minutes: i32,
    /// The sign of the offset, `+` or `-`, which a zero has too.
    pub sign: u8,
}

/// The name with the address behind it, between `<` and `>`.
pub open spec fn full_name(name: Seq<u8>, email: Seq<u8>) -> Seq<u8> {
    name + seq![32u8, 60u8] + email + seq![62u8]
}

/// `n` in decimal, in two digits where it is below ten and not negative.
pub open spec fn two_digits(n: int) -> Seq<u8> {
    if 0 <= n < 10 {
        seq![48u8, digit_byte(n)]
    } else {
        signed_decimal(n)
    }
}

/// The whole hours of an offset in minutes, rounded towards zero.
pub open spec fn offset_hours(minutes: int) -> int {
    if minutes >= 0 {
        minutes / 60
    } else {
        -((-minutes) / 60)
    }
}

/// The minutes of an offset that its whole hours leave, with its sign.
pub open spec fn offset_rest(minutes: int) -> int {
    if minutes >= 0 {
        minutes % 60
    } else {
        -((-minutes) % 60)
    }
}

/// The offset as it is written: the sign, the hours, and the minutes that
/// are left, each in two digits.
pub open spec fn offset_text(sign: u8, minutes: int) -> Seq<u8> {
    seq![sign] + two_digits(offset_hours(minutes)) + two_digits(offset_rest(minutes))
}

/// Appends `n` in two digits to `out`.
fn push_two_digits(out: &mut Vec<u8>, n: i64)
    ensures
        final(out)@ == old(out)@ + two_digits(n as int),
{
    if 0 <= n && n < 10 {
        out.push(48u8);
        out.push(48u8 + (n as u8));
        assert(out@ =~= old(out)@ + two_digits(n as int));
    } else {
        push_signed_decimal(out, n);
    }
}

/// The name with the address, the time, and the offset as it is written.
pub fn parse_signature(sig: &SignatureFacts) -> (r: (Vec<u8>, i64, Vec<u8>))
    ensures
        r.0@ == full_name(sig.name@, sig.email@),
        r.1 == sig.seconds,
        r.2@ == offset_text(sig.sign, sig.offset_minutes as int),
{
    let mut name: Vec<u8> = Vec::new();
    extend_bytes(&mut name, sig.name.as_slice());
    name.push(32u8);
    name.push(60u8);
    extend_bytes(&mut name, sig.email.as_slice());
    name.push(62u8);
    assert(name@ =~= full_name(sig.name@, sig.email@));
    let minutes: i64 = sig.offset_minutes as i64;
    let (hours, rest): (i64, i64) = if minutes >= 0 {
        (minutes / 60, minutes % 60)
    } else {
        (-((-minutes) / 60), -((-minutes) % 60))
    };
    let mut offset: Vec<u8> = Vec::new();
    offset.push(sig.sign);
    push_two_digits(&mut offset, hours);
    push_two_digits(&mut offset, rest);
    assert(offset@ =~= offset_text(sig.sign, sig.offset_minutes as int));
    (name, sig.seconds, offset)
}

/// Why the headers of an object cannot be read.
pub enum HeaderError {
    /// A header line does not end in a line feed.
    MissingLineEnd,
    /// A header line holds no space, and so no value.
    MissingValue,
    /// A header line starts with a space, and so has no key.
    EmptyKey,
}

impl HeaderError {
    /// The message of the error.
    pub open spec fn message(self) -> Seq<char> {
        match self {
            HeaderError::MissingLineEnd => "Header line is missing a line end"@,
            HeaderError::MissingValue => "Header line is missing a value"@,
            HeaderError::EmptyKey => "Empty key"@,
        }
    }
}

/// The headers of an object and what follows them.
pub struct ObjectParts {
    pub headers: Seq<(Seq<u8>, Seq<u8>)>,
    pub message: Seq<u8>,
}

/// Whether `text` starts with a line that continues a value: a line that
/// begins with a space and ends in a line feed.
pub open spec fn continues(text: Seq<u8>) -> bool {
    text.len() > 0 && text[0] == 32u8 && has_tail(text, 10u8)
}

/// What the lines that continue a value add to it: for each, a line feed and
/// the line without the space in front of it.
pub open spec fn continuation(text: Seq<u8>) -> Seq<u8>
    decreases text.len(),
    via continuation_decreases
{
    if continues(text) {
        seq![10u8] + head(text, 10u8).skip(1) + continuation(tail(text, 10u8))
    } else {
        Seq::empty()
    }
}

#[via_fn]
proof fn continuation_decreases(text: Seq<u8>) {
    if continues(text) {
        lemma_tail_shorter(text, 10u8);
    }
}

/// What stands behind the lines that continue a value.
pub open spec fn after_continuation(text: Seq<u8>) -> Seq<u8>
    decreases text.len(),
    via after_continuation_decreases
{
    if continues(text) {
        after_continuation(tail(text, 10u8))
    } else {
        text
    }
}

#[via_fn]
proof fn after_continuation_decreases(text: Seq<u8>) {
    if continues(text) {
        lemma_tail_shorter(text, 10u8);
    }
}

/// What stands behind the lines that continue a value is no longer than
/// what they stand in.
pub proof fn lemma_after_continuation(text: Seq<u8>)
    ensures
        after_continuation(text).len() <= text.len(),
    decreases text.len(),
{
    if continues(text) {
        lemma_tail_shorter(text, 10u8);
        lemma_after_continuation(tail(text, 10u8));
    }
}

/// The headers of an object and what follows them. Each header is a line
/// `key value`; the lines behind it that begin with a space continue the
/// value. The headers end at an empty line, behind which the message stands,
/// or at the end of the text.
pub open spec fn parse_headers(text: Seq<u8>) -> Result<ObjectParts, HeaderError>
    decreases text.len(),
    via parse_headers_decreases
{
    let line = head(text, 10u8);
    let rest = tail(text, 10u8);
    if text.len() == 0 {
        Ok(ObjectParts { headers: Seq::empty(), message: Seq::empty() })
    } else if text[0] == 10u8 {
        Ok(ObjectParts { headers: Seq::empty(), message: text.skip(1) })
    } else if !has_tail(text, 10u8) {
        Err(HeaderError::MissingLineEnd)
    } else if !has_tail(line, 32u8) {
        Err(HeaderError::MissingValue)
    } else if head(line, 32u8).len() == 0 {
        Err(HeaderError::EmptyKey)
    } else {
        match parse_headers(after_continuation(rest)) {
            Err(e) => Err(e),
            Ok(parts) => Ok(
                ObjectParts {
                    headers: seq![(head(line, 32u8), tail(line, 32u8) + continuation(rest))]
                        + parts.headers,
                    message: parts.message,
                },
            ),
        }
    }
}

#[via_fn]
proof fn parse_headers_decreases(text: Seq<u8>) {
    if has_tail(text, 10u8) {
        lemma_tail_shorter(text, 10u8);
        lemma_after_continuation(tail(text, 10u8));
    }
}

/// The headers that were read, in front of what the rest of the text gives.
pub open spec fn with_headers(
    headers: Seq<(Seq<u8>, Seq<u8>)>,
    rest: Result<ObjectParts, HeaderError>,
) -> Result<ObjectParts, HeaderError> {
    match rest {
        Err(e) => Err(e),
        Ok(parts) => Ok(
            ObjectParts { headers: headers + parts.headers, message: parts.message },
        ),
    }
}

/// The error for headers that cannot be read.
fn header_error(e: HeaderError) -> (r: SwhidError)
    ensures
        r@ == SwhidErrorView::Io(e.message()),
{
    match e {
        HeaderError::MissingLineEnd => io_error(
            String::from_str("Header line is missing a line end"),
        ),
        HeaderError::MissingValue => io_error(String::from_str("Header line is missing a value")),
        HeaderError::EmptyKey => io_error(String::from_str("Empty key")),
    }
}

/// Reads the lines that continue a value into `value`, and gives what
/// stands behind them.
fn read_continuation<'a>(text: &'a [u8], value: &mut Vec<u8>) -> (rest: &'a [u8])
    ensures
        final(value)@ == old(value)@ + continuation(text@),
        rest@ == after_continuation(text@),
{
    let mut rest = text;
    assert(value@ =~= old(value)@ + Seq::<u8>::empty());
    loop
        invariant
            old(value)@ + continuation(text@) == value@ + continuation(rest@),
            after_continuation(text@) == after_continuation(rest@),
        ensures
            value@ == old(value)@ + continuation(text@),
            rest@ == after_continuation(text@),
        decreases rest@.len(),
    {
        if rest.len() == 0 || rest[0] != 32u8 {
            assert(value@ + continuation(rest@) =~= value@);
            break ;
        }
        let end = find_byte(rest, 10u8);
        proof {
            lemma_first_index(rest@, 10u8);
        }
        if end == rest.len() {
            assert(value@ + continuation(rest@) =~= value@);
            break ;
        }
        let ghost before = value@;
        let ghost line = head(rest@, 10u8);
        value.push(10u8);
        let more = slice_subrange(rest, 1, end);
        extend_bytes(value, more);
        let next = slice_subrange(rest, end + 1, rest.len());
        proof {
            assert(more@ =~= line.skip(1));
            assert(next@ =~= tail(rest@, 10u8));
            assert(value@ =~= before + (seq![10u8] + line.skip(1)));
            assert(before + continuation(rest@) =~= value@ + continuation(next@));
        }
        rest = next;
    }
    rest
}

/// The headers of an object, each a key and a value, and the message. A
/// header line without a line feed at its end, without a value or without a
/// key is an error.
pub fn parse_object_with_header<'a>(manifest: &'a [u8]) -> (r: Result<
    (Vec<(Vec<u8>, Vec<u8>)>, &'a [u8]),
    SwhidError,
>)
    ensures
        match r {
            Ok((headers, message)) => parse_headers(manifest@) == Ok::<ObjectParts, HeaderError>(
                ObjectParts { headers: headers_view(headers@), message: message@ },
            ),
            Err(e) => parse_headers(manifest@) matches Err(why) && e@ == SwhidErrorView::Io(
                why.message(),
            ),
        },
{
    let mut headers: Vec<(Vec<u8>, Vec<u8>)> = Vec::new();
    let mut rest = manifest;
    assert(headers_view(headers@) =~= Seq::empty());
    assert(with_headers(headers_view(headers@), parse_headers(rest@)) == parse_headers(rest@)) by {
        match parse_headers(rest@) {
            Ok(parts) => {
                assert(headers_view(headers@) + parts.headers =~= parts.headers);
            },
            Err(_) => {},
        }
    }
    loop
        invariant
            parse_headers(manifest@) == with_headers(headers_view(headers@), parse_headers(rest@)),
        decreases rest@.len(),
    {
        if rest.len() == 0 {
            let empty = slice_subrange(rest, 0, 0);
            assert(empty@ =~= Seq::<u8>::empty());
            assert(headers_view(headers@) + Seq::empty() =~= headers_view(headers@));
            return Ok((headers, empty));
        }
        if rest[0] == 10u8 {
            let message = slice_subrange(rest, 1, rest.len());
            assert(message@ =~= rest@.skip(1));
            assert(headers_view(headers@) + Seq::empty() =~= headers_view(headers@));
            return Ok((headers, message));
        }
        let end = find_byte(rest, 10u8);
        proof {
            lemma_first_index(rest@, 10u8);
        }
        if end == rest.len() {
            return Err(header_error(HeaderError::MissingLineEnd));
        }
        let line = slice_subrange(rest, 0, end);
        let behind = slice_subrange(rest, end + 1, rest.len());
        assert(line@ =~= head(rest@, 10u8));
        assert(behind@ =~= tail(rest@, 10u8));
        let space = find_byte(line, 32u8);
        proof {
            lemma_first_index(line@, 32u8);
        }
        if space == line.len() {
            return Err(header_error(HeaderError::MissingValue));
        }
        if space == 0 {
            return Err(header_error(HeaderError::EmptyKey));
        }
        let key = copy_bytes(line, 0, space);
        let mut value = copy_bytes(line, space + 1, line.len());
        assert(key@ =~= head(line@, 32u8));
        assert(value@ =~= tail(line@, 32u8));
        let next = read_continuation(behind, &mut value);
        proof {
            lemma_tail_shorter(rest@, 10u8);
            lemma_after_continuation(behind@);
            let before = headers_view(headers@);
            let one = seq![(key@, value@)];
            assert(headers_view(headers@.push((key, value))) =~= before + one);
            match parse_headers(next@) {
                Ok(parts) => {
                    assert(before + (one + parts.headers) =~= (before + one) + parts.headers);
                },
                Err(_) => {},
            }
        }
        headers.push((key, value));
        rest = next;
    }
}

/// Whether `key` is one of the four headers that a revision holds in fields
/// of their own: `tree`, `parent`, `author` and `committer`.
pub open spec fn is_structural(key: Seq<u8>) -> bool {
    key == crate::revision::tree_key() || key == crate::revision::parent_key() || key
        == crate::revision::author_key() || key == crate::revision::committer_key()
}

/// The headers that are not structural, in their order.
pub open spec fn extra_headers(headers: Seq<(Seq<u8>, Seq<u8>)>) -> Seq<(Seq<u8>, Seq<u8>)> {
    headers.filter(|h: (Seq<u8>, Seq<u8>)| !is_structural(h.0))
}

/// Whether `key` is one of the four structural headers.
fn is_structural_key(key: &[u8]) -> (r: bool)
    ensures
        r == is_structural(key@),
{
    let tree: [u8; 4] = [116u8, 114u8, 101u8, 101u8];
    let parent: [u8; 6] = [112u8, 97u8, 114u8, 101u8, 110u8, 116u8];
    let author: [u8; 6] = [97u8, 117u8, 116u8, 104u8, 111u8, 114u8];
    let committer: [u8; 9] = [99u8, 111u8, 109u8, 109u8, 105u8, 116u8, 116u8, 101u8, 114u8];
    assert(tree@ =~= crate::revision::tree_key());
    assert(parent@ =~= crate::revision::parent_key());
    assert(author@ =~= crate::revision::author_key());
    assert(committer@ =~= crate::revision::committer_key());
    crate::lex::bytes_eq(key, tree.as_slice()) || crate::lex::bytes_eq(key, parent.as_slice())
        || crate::lex::bytes_eq(key, author.as_slice()) || crate::lex::bytes_eq(
        key,
        committer.as_slice(),
    )
}

/// Copies of the headers that are not structural, in their order.
fn keep_extra_headers(headers: &Vec<(Vec<u8>, Vec<u8>)>) -> (r: Vec<(Vec<u8>, Vec<u8>)>)
    ensures
        headers_view(r@) == extra_headers(headers_view(headers@)),
{
    let ghost all = headers_view(headers@);
    let ghost keep = |h: (Seq<u8>, Seq<u8>)| !is_structural(h.0);
    let mut kept: Vec<(Vec<u8>, Vec<u8>)> = Vec::new();
    let mut i: usize = 0;
    proof {
        reveal(Seq::filter);
        assert(all.take(0) =~= Seq::empty());
        assert(headers_view(kept@) =~= all.take(0).filter(keep));
    }
    while i < headers.len()
        invariant
            i <= headers.len(),
            all == headers_view(headers@),
            keep == |h: (Seq<u8>, Seq<u8>)| !is_structural(h.0),
            headers_view(kept@) == all.take(i as int).filter(keep),
        decreases headers.len() - i,
    {
        let ghost before = headers_view(kept@);
        proof {
            reveal(Seq::filter);
            let next = all.take(i + 1);
            assert(next.drop_last() =~= all.take(i as int));
            assert(next.last() == (headers@[i as int].0@, headers@[i as int].1@));
        }
        if !is_structural_key(headers[i].0.as_slice()) {
            let key = copy_bytes(headers[i].0.as_slice(), 0, headers[i].0.len());
            let value = copy_bytes(headers[i].1.as_slice(), 0, headers[i].1.len());
            assert(key@ =~= headers@[i as int].0@);
            assert(value@ =~= headers@[i as int].1@);
            kept.push((key, value));
            assert(headers_view(kept@) =~= before.push((key@, value@)));
        }
        i += 1;
    }
    assert(all.take(headers.len() as int) =~= all);
    kept
}

/// The facts of a commit, as Git holds them.
#[derive(Debug, Clone, PartialEq, Eq)]
pub struct CommitFacts {
    /// The id of the tree of the commit.
    pub tree: Vec<u8>,
    /// The ids of the parents, in their order.
    pub parents: Vec<Vec<u8>>,
    /// The author.
    pub author: SignatureFacts,
    /// The committer.
    pub committer: SignatureFacts,
    /// The headers of the commit, as they stand in the object.
    pub raw_header: Vec<u8>,
    /// The message.
    pub message: Vec<u8>,
}

/// The digests that ids are, where each is twenty bytes long.
fn oids_to_arrays(oids: &Vec<Vec<u8>>) -> (r: Result<Vec<[u8; 20]>, SwhidError>)
    ensures
        match r {
            Ok(ds) => ds@.len() == oids@.len() && forall|i: int|
                #![trigger ds@[i]]
                #![trigger oids@[i]]
                0 <= i < oids@.len() ==> oids@[i]@.len() == 20 && ds@[i]@ == oids@[i]@,
            Err(e) => (exists|i: int| 0 <= i < oids@.len() && #[trigger] oids@[i]@.len() != 20) && e@
                == SwhidErrorView::Io(
                "Unexpected tree_oid length: could not convert slice to array"@,
            ),
        },
{
    let mut ds: Vec<[u8; 20]> = Vec::new();
    let mut i: usize = 0;
    while i < oids.len()
        invariant
            i <= oids.len(),
            ds@.len() == i,
            forall|j: int|
                #![trigger ds@[j]]
                #![trigger oids@[j]]
                0 <= j < i ==> oids@[j]@.len() == 20 && ds@[j]@ == oids@[j]@,
        decreases oids.len() - i,
    {
        match oid_to_array(oids[i].as_slice()) {
            Ok(d) => {
                ds.push(d);
            },
            Err(e) => {
                assert(oids@[i as int]@.len() != 20);
                return Err(e);
            },
        }
        i += 1;
    }
    Ok(ds)
}

/// Whether the tree and the parents of a commit have ids of twenty bytes.
pub open spec fn commit_ids_fit(commit: CommitFacts) -> bool {
    commit.tree@.len() == 20 && forall|i: int|
        0 <= i < commit.parents@.len() ==> (#[trigger] commit.parents@[i])@.len() == 20
}

/// The revision that a commit is: its tree and parents, its author and
/// committer with their times, the headers of the commit but the structural
/// ones, and its message. Headers that cannot be read are an error, and so
/// is an id that is not twenty bytes long.
pub open spec fn revision_view(commit: CommitFacts) -> Result<RevisionView, SwhidErrorView> {
    match parse_headers(commit.raw_header@) {
        Err(why) => Err(SwhidErrorView::Io(why.message())),
        Ok(parts) => if !commit_ids_fit(commit) {
            Err(
                SwhidErrorView::Io(
                    "Unexpected tree_oid length: could not convert slice to array"@,
                ),
            )
        } else {
            Ok(
                RevisionView {
                    directory: commit.tree@,
                    parents: commit.parents@.map_values(|p: Vec<u8>| p@),
                    author: full_name(commit.author.name@, commit.author.email@),
                    author_timestamp: commit.author.seconds as int,
                    author_timestamp_offset: offset_text(
                        commit.author.sign,
                        commit.author.offset_minutes as int,
                    ),
                    committer: full_name(commit.committer.name@, commit.committer.email@),
                    committer_timestamp: commit.committer.seconds as int,
                    committer_timestamp_offset: offset_text(
                        commit.committer.sign,
                        commit.committer.offset_minutes as int,
                    ),
                    extra_headers: extra_headers(parts.headers),
                    message: Some(commit.message@),
                },
            )
        },
    }
}

/// The revision that a commit is.
pub fn revision_from_git(commit: &CommitFacts) -> (r: Result<Revision, SwhidError>)
    ensures
        match r {
            Ok(rev) => revision_view(*commit) == Ok::<RevisionView, SwhidErrorView>(rev@),
            Err(e) => revision_view(*commit) == Err::<RevisionView, SwhidErrorView>(e@),
        },
{
    let (author, author_timestamp, author_timestamp_offset) = parse_signature(&commit.author);
    let (committer, committer_timestamp, committer_timestamp_offset) = parse_signature(
        &commit.committer,
    );
    let (headers, _message) = match parse_object_with_header(commit.raw_header.as_slice()) {
        Ok(parts) => parts,
        Err(e) => { return Err(e); },
    };
    let extra_headers = keep_extra_headers(&headers);
    let directory = match oid_to_array(commit.tree.as_slice()) {
        Ok(d) => d,
        Err(e) => { return Err(e); },
    };
    let parents = match oids_to_arrays(&commit.parents) {
        Ok(ps) => ps,
        Err(e) => { return Err(e); },
    };
    let mut message: Vec<u8> = Vec::new();
    extend_bytes(&mut message, commit.message.as_slice());
    assert(message@ =~= commit.message@);
    let rev = Revision {
        directory,
        parents,
        author,
        author_timestamp,
        author_timestamp_offset,
        committer,
        committer_timestamp,
        committer_timestamp_offset,
        extra_headers,
        message: Some(message),
    };
    assert forall|i: int| 0 <= i < commit.parents@.len() implies rev@.parents[i]
        == commit.parents@.map_values(|p: Vec<u8>| p@)[i] by {
        assert(parents@[i]@ == commit.parents@[i]@);
    }
    assert(rev@.parents =~= commit.parents@.map_values(|p: Vec<u8>| p@));
    Ok(rev)
}

/// The identifier of the revision that a commit is.
pub fn revision_swhid(commit: &CommitFacts) -> (r: Result<Swhid, SwhidError>)
    ensures
        match r {
            Ok(id) => revision_view(*commit) matches Ok(rev) && id@ == (SwhidView {
                object_type: ObjectType::Revision,
                digest: object_digest(commit_label(), rev.manifest()),
            }),
            Err(e) => revision_view(*commit) == Err::<RevisionView, SwhidErrorView>(e@),
        },
{
    match revision_from_git(commit) {
        Ok(rev) => Ok(rev.swhid()),
        Err(e) => Err(e),
    }
}

/// The kinds of object that Git holds, and `Any`, which is no kind of an
/// object.
#[derive(Debug, Clone, Copy, PartialEq, Eq, Structural)]
pub enum GitObjectKind {
    Any,
    Commit,
    Tree,
    Blob,
    Tag,
}

/// The facts of an annotated tag, as Git holds them.
#[derive(Debug, Clone, PartialEq, Eq)]
pub struct TagFacts {
    /// The id of the object that the tag names.
    pub target: Vec<u8>,
    /// The kind of that object, where it is known.
    pub target_kind: Option<GitObjectKind>,
    /// The name of the tag.
    pub name: Vec<u8>,
    /// Who made the tag, where it is known.
    pub tagger: Option<SignatureFacts>,
    /// The message, where there is one.
    pub message: Option<Vec<u8>>,
}

/// The kind of target that a kind of object is, where it is an object.
pub open spec fn release_target(kind: Option<GitObjectKind>) -> Option<ReleaseTargetType> {
    match kind {
        Some(GitObjectKind::Commit) => Some(ReleaseTargetType::Revision),
        Some(GitObjectKind::Tree) => Some(ReleaseTargetType::Directory),
        Some(GitObjectKind::Blob) => Some(ReleaseTargetType::Content),
        Some(GitObjectKind::Tag) => Some(ReleaseTargetType::Release),
        _ => None,
    }
}

/// The release that an annotated tag is: its target and the kind of it, its
/// name, who made it and when, and its message. The other headers of a tag
/// are not among the facts. A target whose id is not twenty bytes long, or
/// that is no object of the four kinds, is an error.
pub open spec fn release_view(tag: TagFacts) -> Result<ReleaseView, SwhidErrorView> {
    if tag.target@.len() != 20 {
        Err(SwhidErrorView::Io("Unexpected tree_oid length: could not convert slice to array"@))
    } else {
        match release_target(tag.target_kind) {
            None => Err(SwhidErrorView::Io("Unknown target type"@)),
            Some(object_type) => Ok(
                ReleaseView {
                    object: tag.target@,
                    object_type,
                    name: tag.name@,
                    author: match tag.tagger {
                        Some(t) => Some(full_name(t.name@, t.email@)),
                        None => None,
                    },
                    author_timestamp: match tag.tagger {
                        Some(t) => Some(t.seconds),
                        None => None,
                    },
                    author_timestamp_offset: match tag.tagger {
                        Some(t) => Some(offset_text(t.sign, t.offset_minutes as int)),
                        None => None,
                    },
                    extra_headers: Seq::empty(),
                    message: crate::utils::optional_view(tag.message),
                },
            ),
        }
    }
}

/// The release that an annotated tag is.
pub fn release_from_git(tag: &TagFacts) -> (r: Result<Release, SwhidError>)
    ensures
        match r {
            Ok(rel) => release_view(*tag) == Ok::<ReleaseView, SwhidErrorView>(rel@),
            Err(e) => release_view(*tag) == Err::<ReleaseView, SwhidErrorView>(e@),
        },
{
    let (author, author_timestamp, author_timestamp_offset) = match &tag.tagger {
        Some(tagger) => {
            let (name, seconds, offset) = parse_signature(tagger);
            (Some(name), Some(seconds), Some(offset))
        },
        None => (None, None, None),
    };
    let object = match oid_to_array(tag.target.as_slice()) {
        Ok(d) => d,
        Err(e) => { return Err(e); },
    };
    let object_type = match tag.target_kind {
        Some(GitObjectKind::Commit) => ReleaseTargetType::Revision,
        Some(GitObjectKind::Tree) => ReleaseTargetType::Directory,
        Some(GitObjectKind::Blob) => ReleaseTargetType::Content,
        Some(GitObjectKind::Tag) => ReleaseTargetType::Release,
        _ => { return Err(io_error(String::from_str("Unknown target type"))); },
    };
    let mut name: Vec<u8> = Vec::new();
    extend_bytes(&mut name, tag.name.as_slice());
    assert(name@ =~= tag.name@);
    let message = match &tag.message {
        Some(m) => {
            let mut copy: Vec<u8> = Vec::new();
            extend_bytes(&mut copy, m.as_slice());
            assert(copy@ =~= m@);
            Some(copy)
        },
        None => None,
    };
    let extra_headers: Vec<(Vec<u8>, Vec<u8>)> = Vec::new();
    assert(headers_view(extra_headers@) =~= Seq::empty());
    Ok(
        Release {
            object,
            object_type,
            name,
            author,
            author_timestamp,
            author_timestamp_offset,
            extra_headers,
            message,
        },
    )
}

/// The identifier of the release that an annotated tag is.
pub fn release_swhid(tag: &TagFacts) -> (r: Result<Swhid, SwhidError>)
    ensures
        match r {
            Ok(id) => release_view(*tag) matches Ok(rel) && id@ == (SwhidView {
                object_type: ObjectType::Release,
                digest: object_digest(tag_label(), rel.manifest()),
            }),
            Err(e) => release_view(*tag) == Err::<ReleaseView, SwhidErrorView>(e@),
        },
{
    match release_from_git(tag) {
        Ok(rel) => Ok(rel.swhid()),
        Err(e) => Err(e),
    }
}

/// The kinds of reference.
#[derive(Debug, Clone, Copy, PartialEq, Eq, Structural)]
pub enum ReferenceKind {
    /// The reference holds the id of an object.
    Direct,
    /// The reference holds the name of another reference.
    Symbolic,
}

/// The facts of a reference, as Git holds them.
#[derive(Debug, Clone, PartialEq, Eq)]
pub struct ReferenceFacts {
    /// The name of the reference.
    pub name: Vec<u8>,
    /// Whether the reference is a branch.
    pub is_branch: bool,
    /// Whether the reference is a tag.
    pub is_tag: bool,
    /// The kind of the reference, where it has one.
    pub kind: Option<ReferenceKind>,
    /// The id that the reference holds, where it holds one.
    pub target: Option<Vec<u8>>,
    /// The name that the reference holds, where it holds one.
    pub symbolic_target: Option<Vec<u8>>,
}

/// What is made of a reference.
#[derive(Debug)]
pub enum ReferenceStep {
    /// The reference is neither a branch nor a tag, and is left out.
    Skip,
    /// The reference is this branch.
    Branch(Branch),
    /// The reference holds the id of an object; what the branch points to
    /// depends on the kind of that object, which is not known yet.
    LookUp { name: Vec<u8>, target: [u8; 20] },
}

/// What is made of a reference, with its bytes as sequences.
pub enum ReferenceStepView {
    Skip,
    Branch(BranchView),
    LookUp { name: Seq<u8>, target: Seq<u8> },
}

impl View for ReferenceStep {
    type V = ReferenceStepView;

    open spec fn view(&self) -> ReferenceStepView {
        match self {
            ReferenceStep::Skip => ReferenceStepView::Skip,
            ReferenceStep::Branch(b) => ReferenceStepView::Branch(b@),
            ReferenceStep::LookUp { name, target } => ReferenceStepView::LookUp {
                name: name@,
                target: target@,
            },
        }
    }
}

/// The message for a reference whose facts do not fit together.
pub open spec fn reference_message(name: Seq<u8>, what: Seq<char>) -> Seq<char> {
    "Reference "@ + lossy_text(name) + what
}

/// What is made of a reference. One that is neither a branch nor a tag is
/// left out. One without a kind dangles, and counts as a branch to a
/// revision; it may hold no id and no name. A symbolic one is an alias of
/// the name it holds, and must hold one. A direct one must hold an id, of
/// twenty bytes, and then the kind of the object is asked for.
pub open spec fn reference_step(reference: ReferenceFacts) -> Result<
    ReferenceStepView,
    SwhidErrorView,
> {
    if !reference.is_branch && !reference.is_tag {
        Ok(ReferenceStepView::Skip)
    } else {
        match reference.kind {
            None => if reference.target is Some {
                Err(
                    SwhidErrorView::Io(
                        reference_message(reference.name@, " has None kind, but has a target"@),
                    ),
                )
            } else if reference.symbolic_target is Some {
                Err(
                    SwhidErrorView::Io(
                        reference_message(
                            reference.name@,
                            " has None kind, but has a symbolic target"@,
                        ),
                    ),
                )
            } else {
                Ok(
                    ReferenceStepView::Branch(
                        BranchView {
                            name: reference.name@,
                            target: BranchTargetView { kind: TargetKind::Revision, id: None },
                        },
                    ),
                )
            },
            Some(ReferenceKind::Direct) => match reference.target {
                None => Err(
                    SwhidErrorView::Io(
                        reference_message(reference.name@, " has Direct kind, but has no target"@),
                    ),
                ),
                Some(id) => if id@.len() == 20 {
                    Ok(ReferenceStepView::LookUp { name: reference.name@, target: id@ })
                } else {
                    Err(
                        SwhidErrorView::Io(
                            "Unexpected tree_oid length: could not convert slice to array"@,
                        ),
                    )
                },
            },
            Some(ReferenceKind::Symbolic) => match reference.symbolic_target {
                None => Err(
                    SwhidErrorView::Io(
                        reference_message(
                            reference.name@,
                            " has Symbolic kind, but has no symbolic target"@,
                        ),
                    ),
                ),
                Some(target) => Ok(
                    ReferenceStepView::Branch(
                        BranchView {
                            name: reference.name@,
                            target: BranchTargetView { kind: TargetKind::Alias, id: Some(target@) },
                        },
                    ),
                ),
            },
        }
    }
}

/// The error for a reference whose facts do not fit together.
fn reference_error(name: &[u8], what: &str) -> (r: SwhidError)
    ensures
        r@ == SwhidErrorView::Io(reference_message(name@, what@)),
{
    let shown = lossy_string(name);
    io_error(String::from_str("Reference ").concat(shown.as_str()).concat(what))
}

/// What is made of a reference.
pub fn reference_to_branch(reference: ReferenceFacts) -> (r: Result<ReferenceStep, SwhidError>)
    ensures
        match r {
            Ok(step) => reference_step(reference) == Ok::<ReferenceStepView, SwhidErrorView>(step@),
            Err(e) => reference_step(reference) == Err::<ReferenceStepView, SwhidErrorView>(e@),
        },
{
    if !reference.is_branch && !reference.is_tag {
        return Ok(ReferenceStep::Skip);
    }
    let name = reference.name;
    match reference.kind {
        None => {
            if reference.target.is_some() {
                return Err(reference_error(name.as_slice(), " has None kind, but has a target"));
            }
            if reference.symbolic_target.is_some() {
                return Err(
                    reference_error(name.as_slice(), " has None kind, but has a symbolic target"),
                );
            }
            Ok(ReferenceStep::Branch(Branch { name, target: BranchTarget::Revision(None) }))
        },
        Some(ReferenceKind::Direct) => {
            let id = match reference.target {
                Some(id) => id,
                None => {
                    return Err(
                        reference_error(name.as_slice(), " has Direct kind, but has no target"),
                    );
                },
            };
            match oid_to_array(id.as_slice()) {
                Ok(target) => Ok(ReferenceStep::LookUp { name, target }),
                Err(e) => Err(e),
            }
        },
        Some(ReferenceKind::Symbolic) => {
            match reference.symbolic_target {
                Some(target) => Ok(
                    ReferenceStep::Branch(Branch { name, target: BranchTarget::Alias(Some(target)) }),
                ),
                None => Err(
                    reference_error(
                        name.as_slice(),
                        " has Symbolic kind, but has no symbolic target",
                    ),
                ),
            }
        },
    }
}

/// The kind of target that an object of the kind `kind` is. An object whose
/// kind is not known counts as a revision.
pub open spec fn direct_kind(kind: Option<GitObjectKind>) -> TargetKind {
    match kind {
        Some(GitObjectKind::Tree) => TargetKind::Directory,
        Some(GitObjectKind::Blob) => TargetKind::Content,
        Some(GitObjectKind::Tag) => TargetKind::Release,
        _ => TargetKind::Revision,
    }
}

/// The branch named `name` for a reference that holds the id `target` of an
/// object of the kind `kind`. The kind is that of an object: not `Any`.
pub fn direct_branch(name: Vec<u8>, target: [u8; 20], kind: Option<GitObjectKind>) -> (r: Branch)
    requires
        kind != Some(GitObjectKind::Any),
    ensures
        r@ == (BranchView {
            name: name@,
            target: BranchTargetView { kind: direct_kind(kind), id: Some(target@) },
        }),
{
    let target = match kind {
        None => BranchTarget::Revision(Some(target)),
        Some(GitObjectKind::Commit) => BranchTarget::Revision(Some(target)),
        Some(GitObjectKind::Tree) => BranchTarget::Directory(Some(target)),
        Some(GitObjectKind::Blob) => BranchTarget::Content(Some(target)),
        Some(GitObjectKind::Tag) => BranchTarget::Release(Some(target)),
        Some(GitObjectKind::Any) => BranchTarget::Revision(Some(target)),
    };
    Branch { name, target }
}

/// `HEAD`, the name of the branch that says which branch a repository is at.
pub open spec fn head_name() -> Seq<u8> {
    seq![72u8, 69u8, 65u8, 68u8]
}

/// The branches of a snapshot: those of the references, and behind them,
/// where the repository is at a branch, `HEAD` as an alias of it.
pub open spec fn with_head(branches: Seq<BranchView>, head: Option<BranchView>) -> Seq<BranchView> {
    match head {
        Some(at) => branches.push(
            BranchView {
                name: head_name(),
                target: BranchTargetView { kind: TargetKind::Alias, id: Some(at.name) },
            },
        ),
        None => branches,
    }
}

/// The view of a branch that may be absent.
pub open spec fn branch_view(branch: Option<Branch>) -> Option<BranchView> {
    match branch {
        Some(b) => Some(b@),
        None => None,
    }
}

/// The snapshot of a repository, from the branches that its references are
/// and the branch that it is at. Branches that no snapshot can hold are an
/// error, with the reason in the message.
pub fn snapshot_from_git(branches: Vec<Branch>, head: Option<Branch>) -> (r: Result<
    Snapshot,
    SwhidError,
>)
    ensures
        match r {
            Ok(s) => crate::snapshot::canonical_branches(s@) && s@.to_multiset() == with_head(
                views(branches@),
                branch_view(head),
            ).to_multiset(),
            Err(e) => exists|why: SnapshotError|
                refused_branches(with_head(views(branches@), branch_view(head)), why) && e@
                    == SwhidErrorView::Io("Invalid snapshot: "@ + why.message()),
        },
{
    let mut all = branches;
    match head {
        Some(at) => {
            let mut name: Vec<u8> = Vec::new();
            name.push(72u8);
            name.push(69u8);
            name.push(65u8);
            name.push(68u8);
            assert(name@ =~= head_name());
            all.push(Branch { name, target: BranchTarget::Alias(Some(at.name)) });
        },
        None => {},
    }
    assert(views(all@) =~= with_head(views(branches@), branch_view(head)));
    match Snapshot::new(all) {
        Ok(s) => Ok(s),
        Err(why) => {
            let reason = why.to_string();
            Err(io_error(String::from_str("Invalid snapshot: ").concat(reason.as_str())))
        },
    }
}

/// The identifier of the snapshot of a repository.
pub fn snapshot_swhid(branches: Vec<Branch>, head: Option<Branch>) -> (r: Result<Swhid, SwhidError>)
    ensures
        match r {
            Ok(id) => exists|order: Seq<BranchView>|
                crate::snapshot::canonical_branches(order) && order.to_multiset() == with_head(
                    views(branches@),
                    branch_view(head),
                ).to_multiset() && id@ == (SwhidView {
                    object_type: ObjectType::Snapshot,
                    digest: object_digest(snapshot_label(), snapshot_manifest(order)),
                }),
            Err(e) => exists|why: SnapshotError|
                refused_branches(with_head(views(branches@), branch_view(head)), why) && e@
                    == SwhidErrorView::Io("Invalid snapshot: "@ + why.message()),
        },
{
    match snapshot_from_git(branches, head) {
        Ok(s) => {
            let id = s.swhid();
            assert(crate::snapshot::canonical_branches(s@) && id@ == (SwhidView {
                object_type: ObjectType::Snapshot,
                digest: object_digest(snapshot_label(), snapshot_manifest(s@)),
            }));
            Ok(id)
        },
        Err(e) => Err(e),
    }
}

/// The name of the reference of the tag `name`: `refs/tags/` and the name.
pub fn tag_reference(name: &str) -> (r: String)
    ensures
        r@ == "refs/tags/"@ + name@,
{
    String::from_str("refs/tags/").concat(name)
}

} // verus!

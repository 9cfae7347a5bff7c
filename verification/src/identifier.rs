//! The core identifier: an object type and a digest, written
//! `swh:1:<tag>:<digest in hexadecimal>`.

use vstd::prelude::*;
use vstd::string::*;
use crate::digits::ascii;
use crate::error::{SwhidError, SwhidErrorView};
use crate::hash::{
    blob_label, commit_label, hash_swhid_object, lemma_labels, object_digest, snapshot_label,
    tag_label, tree_label,
};
use crate::hexstr::{
    all_lower_hex, hex_decode_digest, hex_decoding, hex_encode, hex_encoding, is_lower_hex,
    lemma_hex_canonical, lemma_hex_roundtrip,
};
use crate::seqs::{
    has_tail, head, lemma_first_index, lemma_split_join, lemma_split_none, lemma_split_of_join,
    split_chars, tail,
};
use crate::text::{chars_are, chars_of, string_of};

verus! {

/// The kinds of object that an identifier can name.
#[derive(Debug, Clone, Copy, PartialEq, Eq, Hash, Structural)]
pub enum ObjectType {
    /// The contents of a file.
    Content,
    /// A directory.
    Directory,
    /// A revision: a commit.
    Revision,
    /// A release: an annotated tag.
    Release,
    /// A snapshot of the branches of a repository.
    Snapshot,
}

impl ObjectType {
    /// The three letters that stand for the type in an identifier.
    pub open spec fn tag(self) -> Seq<char> {
        match self {
            ObjectType::Content => seq!['c', 'n', 't'],
            ObjectType::Directory => seq!['d', 'i', 'r'],
            ObjectType::Revision => seq!['r', 'e', 'v'],
            ObjectType::Release => seq!['r', 'e', 'l'],
            ObjectType::Snapshot => seq!['s', 'n', 'p'],
        }
    }

    /// The type that `s` stands for, where it is one of the five tags.
    pub open spec fn of_tag(s: Seq<char>) -> Option<ObjectType> {
        if s == ObjectType::Content.tag() {
            Some(ObjectType::Content)
        } else if s == ObjectType::Directory.tag() {
            Some(ObjectType::Directory)
        } else if s == ObjectType::Revision.tag() {
            Some(ObjectType::Revision)
        } else if s == ObjectType::Release.tag() {
            Some(ObjectType::Release)
        } else if s == ObjectType::Snapshot.tag() {
            Some(ObjectType::Snapshot)
        } else {
            None
        }
    }

    /// The label of the type in the header of an object: `blob`, `tree`,
    /// `commit`, `tag` or `snapshot`.
    pub open spec fn label(self) -> Seq<u8> {
        match self {
            ObjectType::Content => blob_label(),
            ObjectType::Directory => tree_label(),
            ObjectType::Revision => commit_label(),
            ObjectType::Release => tag_label(),
            ObjectType::Snapshot => snapshot_label(),
        }
    }

    /// The label of the type in the header of an object.
    pub fn header_label(self) -> (r: &'static str)
        ensures
            r.spec_bytes() == self.label(),
    {
        proof {
            lemma_labels();
        }
        match self {
            ObjectType::Content => "blob",
            ObjectType::Directory => "tree",
            ObjectType::Revision => "commit",
            ObjectType::Release => "tag",
            ObjectType::Snapshot => "snapshot",
        }
    }

    /// The tags are told apart: each stands for its own type.
    pub proof fn lemma_tag_of_tag(self)
        ensures
            ObjectType::of_tag(self.tag()) == Some(self),
            self.tag().len() == 3,
            !self.tag().contains(':'),
            !self.tag().contains(';'),
    {
        let c = ObjectType::Content.tag();
        let d = ObjectType::Directory.tag();
        let v = ObjectType::Revision.tag();
        let l = ObjectType::Release.tag();
        let s = ObjectType::Snapshot.tag();
        assert(c[0] == 'c' && d[0] == 'd' && v[0] == 'r' && l[0] == 'r' && s[0] == 's');
        assert(v[2] == 'v' && l[2] == 'l');
        let t = self.tag();
        if t.contains(':') {
            let i = choose|i: int| 0 <= i < t.len() && t[i] == ':';
            assert(t[i] == ':');
        }
        if t.contains(';') {
            let i = choose|i: int| 0 <= i < t.len() && t[i] == ';';
            assert(t[i] == ';');
        }
    }

    /// The three letters that stand for the type in an identifier.
    pub fn as_tag(self) -> (r: &'static str)
        ensures
            r@ == self.tag(),
    {
        proof {
            reveal_strlit("cnt");
            reveal_strlit("dir");
            reveal_strlit("rev");
            reveal_strlit("rel");
            reveal_strlit("snp");
        }
        let r = match self {
            ObjectType::Content => "cnt",
            ObjectType::Directory => "dir",
            ObjectType::Revision => "rev",
            ObjectType::Release => "rel",
            ObjectType::Snapshot => "snp",
        };
        assert(r@ =~= self.tag());
        r
    }

    /// The type that the characters of `tag` stand for.
    pub fn from_tag_chars(tag: &[char]) -> (r: Option<ObjectType>)
        ensures
            r == ObjectType::of_tag(tag@),
    {
        proof {
            reveal_strlit("cnt");
            reveal_strlit("dir");
            reveal_strlit("rev");
            reveal_strlit("rel");
            reveal_strlit("snp");
            assert("cnt"@ =~= ObjectType::Content.tag());
            assert("dir"@ =~= ObjectType::Directory.tag());
            assert("rev"@ =~= ObjectType::Revision.tag());
            assert("rel"@ =~= ObjectType::Release.tag());
            assert("snp"@ =~= ObjectType::Snapshot.tag());
        }
        if chars_are(tag, "cnt") {
            Some(ObjectType::Content)
        } else if chars_are(tag, "dir") {
            Some(ObjectType::Directory)
        } else if chars_are(tag, "rev") {
            Some(ObjectType::Revision)
        } else if chars_are(tag, "rel") {
            Some(ObjectType::Release)
        } else if chars_are(tag, "snp") {
            Some(ObjectType::Snapshot)
        } else {
            None
        }
    }

    /// The type that `tag` stands for; any text but the five tags is refused
    /// as an invalid object type. Case counts.
    pub fn from_tag(tag: &str) -> (r: Result<ObjectType, SwhidError>)
        ensures
            match r {
                Ok(t) => ObjectType::of_tag(tag@) == Some(t),
                Err(e) => ObjectType::of_tag(tag@) is None && e@
                    == SwhidErrorView::InvalidObjectType(tag@),
            },
    {
        let chars = chars_of(tag);
        match ObjectType::from_tag_chars(chars.as_slice()) {
            Some(t) => Ok(t),
            None => Err(SwhidError::InvalidObjectType(String::from_str(tag))),
        }
    }
}

/// A core identifier: the type of an object and its digest of twenty bytes.
#[derive(Debug, Clone, PartialEq, Eq, Hash)]
pub struct Swhid {
    object_type: ObjectType,
    digest: [u8; 20],
}

/// A core identifier with its digest as a sequence of bytes.
pub struct SwhidView {
    pub object_type: ObjectType,
    pub digest: Seq<u8>,
}

impl View for Swhid {
    type V = SwhidView;

    closed spec fn view(&self) -> SwhidView {
        SwhidView { object_type: self.object_type, digest: self.digest@ }
    }
}

/// `swh`, the scheme of every identifier.
pub open spec fn scheme_text() -> Seq<char> {
    seq!['s', 'w', 'h']
}

/// `1`, the one version of the grammar.
pub open spec fn version_text() -> Seq<char> {
    seq!['1']
}

/// Whether `c` is a lower-case hexadecimal digit.
pub open spec fn is_lower_hex_char(c: char) -> bool {
    ('0' <= c <= '9') || ('a' <= c <= 'f')
}

/// The ASCII codes of the characters of `s`.
pub open spec fn codes(s: Seq<char>) -> Seq<u8> {
    Seq::new(s.len(), |i: int| s[i] as u8)
}

/// Whether `s` is a digest in text: forty lower-case hexadecimal digits.
pub open spec fn is_digest_text(s: Seq<char>) -> bool {
    s.len() == 40 && forall|i: int| 0 <= i < s.len() ==> is_lower_hex_char(#[trigger] s[i])
}

impl SwhidView {
    /// The text of the identifier: `swh:1:`, the tag of its type, a colon,
    /// and its digest in lower-case hexadecimal.
    pub open spec fn text(self) -> Seq<char> {
        scheme_text() + seq![':'] + version_text() + seq![':'] + self.object_type.tag() + seq![':']
            + ascii(hex_encoding(self.digest))
    }
}

/// What reading `s` as a core identifier gives. The text is split at its
/// colons, and the fields are tried from the left: the scheme, the version,
/// the tag, then the number of fields, which is four, then the digest. The
/// empty text has no fields.
pub open spec fn parse_core_spec(s: Seq<char>) -> Result<SwhidView, SwhidErrorView> {
    let s1 = tail(s, ':');
    let s2 = tail(s1, ':');
    let s3 = tail(s2, ':');
    if s.len() == 0 {
        Err(SwhidErrorView::InvalidFormat(s))
    } else if head(s, ':') != scheme_text() {
        Err(SwhidErrorView::InvalidScheme(head(s, ':')))
    } else if !has_tail(s, ':') {
        Err(SwhidErrorView::InvalidFormat(s))
    } else if head(s1, ':') != version_text() {
        Err(SwhidErrorView::InvalidVersion(head(s1, ':')))
    } else if !has_tail(s1, ':') {
        Err(SwhidErrorView::InvalidFormat(s))
    } else if ObjectType::of_tag(head(s2, ':')) is None {
        Err(SwhidErrorView::InvalidObjectType(head(s2, ':')))
    } else if !has_tail(s2, ':') || has_tail(s3, ':') {
        Err(SwhidErrorView::InvalidFormat(s))
    } else if !is_digest_text(s3) {
        Err(SwhidErrorView::InvalidDigest(s3))
    } else {
        Ok(
            SwhidView {
                object_type: ObjectType::of_tag(head(s2, ':'))->Some_0,
                digest: hex_decoding(codes(s3)),
            },
        )
    }
}

/// The ASCII codes of the text of ASCII bytes are those bytes.
pub proof fn lemma_codes_of_ascii(bytes: Seq<u8>)
    requires
        forall|i: int| 0 <= i < bytes.len() ==> #[trigger] bytes[i] < 128,
    ensures
        codes(ascii(bytes)) == bytes,
{
    assert(codes(ascii(bytes)) =~= bytes);
}

/// The text of the ASCII codes of ASCII characters is those characters.
pub proof fn lemma_ascii_of_codes(s: Seq<char>)
    requires
        forall|i: int| 0 <= i < s.len() ==> #[trigger] s[i] <= '\x7f',
    ensures
        ascii(codes(s)) == s,
{
    assert forall|i: int| 0 <= i < s.len() implies ascii(codes(s))[i] == s[i] by {
        let c = s[i];
        assert(c <= '\x7f');
        vstd::utf8::char_u32_cast(c, c as u32);
    }
    assert(ascii(codes(s)) =~= s);
}

/// The hexadecimal text of twenty bytes is a digest in text, holds no colon
/// and no semicolon, and stands for those bytes.
pub proof fn lemma_digest_text(digest: Seq<u8>)
    requires
        digest.len() == 20,
    ensures
        is_digest_text(ascii(hex_encoding(digest))),
        !ascii(hex_encoding(digest)).contains(':'),
        !ascii(hex_encoding(digest)).contains(';'),
        hex_decoding(codes(ascii(hex_encoding(digest)))) == digest,
{
    let h = hex_encoding(digest);
    let t = ascii(h);
    lemma_hex_roundtrip(digest);
    assert forall|i: int| 0 <= i < t.len() implies is_lower_hex_char(#[trigger] t[i]) by {
        assert(is_lower_hex(h[i]));
    }
    assert forall|i: int| 0 <= i < h.len() implies #[trigger] h[i] < 128 by {
        assert(is_lower_hex(h[i]));
    }
    lemma_codes_of_ascii(h);
    if t.contains(':') {
        let i = choose|i: int| 0 <= i < t.len() && t[i] == ':';
        assert(is_lower_hex_char(t[i]));
    }
    if t.contains(';') {
        let i = choose|i: int| 0 <= i < t.len() && t[i] == ';';
        assert(is_lower_hex_char(t[i]));
    }
}

/// The text of an identifier holds no semicolon.
pub proof fn lemma_text_no_semicolon(id: SwhidView)
    requires
        id.digest.len() == 20,
    ensures
        !id.text().contains(';'),
{
    let t = id.text();
    let h = ascii(hex_encoding(id.digest));
    lemma_digest_text(id.digest);
    id.object_type.lemma_tag_of_tag();
    let g = id.object_type.tag();
    if t.contains(';') {
        let i = choose|i: int| 0 <= i < t.len() && t[i] == ';';
        if i < 6 {
        } else if i < 9 {
            assert(t[i] == g[i - 6]);
            assert(g.contains(g[i - 6]));
        } else if i == 9 {
        } else {
            assert(t[i] == h[i - 10]);
            assert(h.contains(h[i - 10]));
        }
    }
}

/// Reading the text of an identifier gives the identifier back.
pub proof fn lemma_parse_of_text(id: SwhidView)
    requires
        id.digest.len() == 20,
    ensures
        parse_core_spec(id.text()) == Ok::<SwhidView, SwhidErrorView>(id),
{
    let s = id.text();
    let g = id.object_type.tag();
    let h = ascii(hex_encoding(id.digest));
    let r2 = g + seq![':'] + h;
    let r1 = version_text() + seq![':'] + r2;
    id.object_type.lemma_tag_of_tag();
    lemma_digest_text(id.digest);
    assert(s =~= scheme_text() + seq![':'] + r1);
    assert(!scheme_text().contains(':')) by {
        if scheme_text().contains(':') {
            let i = choose|i: int| 0 <= i < 3 && scheme_text()[i] == ':';
            assert(scheme_text()[i] == ':');
        }
    }
    assert(!version_text().contains(':')) by {
        if version_text().contains(':') {
            let i = choose|i: int| 0 <= i < 1 && version_text()[i] == ':';
            assert(version_text()[i] == ':');
        }
    }
    lemma_split_of_join(scheme_text(), ':', r1);
    lemma_split_of_join(version_text(), ':', r2);
    lemma_split_of_join(g, ':', h);
    lemma_split_none(h, ':');
    assert(parse_core_spec(s) matches Ok(v) && v.object_type == id.object_type && v.digest
        == id.digest);
}

/// A digest in text is the hexadecimal text of the bytes it stands for.
pub proof fn lemma_digest_text_canonical(s: Seq<char>)
    requires
        is_digest_text(s),
    ensures
        ascii(hex_encoding(hex_decoding(codes(s)))) == s,
        hex_decoding(codes(s)).len() == 20,
{
    let c = codes(s);
    assert forall|i: int| 0 <= i < c.len() implies is_lower_hex(#[trigger] c[i]) by {
        assert(is_lower_hex_char(s[i]));
    }
    lemma_hex_canonical(c);
    assert forall|i: int| 0 <= i < s.len() implies #[trigger] s[i] <= '\x7f' by {
        assert(is_lower_hex_char(s[i]));
    }
    lemma_ascii_of_codes(s);
}

/// What reads as an identifier is the text of that identifier: no other
/// text is accepted for it.
pub proof fn lemma_text_of_parse(s: Seq<char>)
    requires
        parse_core_spec(s) is Ok,
    ensures
        parse_core_spec(s)->Ok_0.text() == s,
        parse_core_spec(s)->Ok_0.digest.len() == 20,
{
    let id = parse_core_spec(s)->Ok_0;
    let s1 = tail(s, ':');
    let s2 = tail(s1, ':');
    let s3 = tail(s2, ':');
    lemma_split_join(s, ':');
    lemma_split_join(s1, ':');
    lemma_split_join(s2, ':');
    lemma_digest_text_canonical(s3);
    let t = ObjectType::of_tag(head(s2, ':'))->Some_0;
    assert(head(s2, ':') == t.tag());
    assert(id.object_type == t);
    let h = ascii(hex_encoding(id.digest));
    assert(h == s3);
    let r2 = t.tag() + seq![':'] + h;
    let r1 = version_text() + seq![':'] + r2;
    assert(s2 == r2);
    assert(s1 == r1);
    assert(s == scheme_text() + seq![':'] + r1);
    assert(id.text() =~= scheme_text() + seq![':'] + r1);
}

/// Whether every character of `s` is a lower-case hexadecimal digit.
fn all_lower_hex_chars(s: &[char]) -> (r: bool)
    ensures
        r == forall|i: int| 0 <= i < s@.len() ==> is_lower_hex_char(#[trigger] s@[i]),
{
    let mut i: usize = 0;
    while i < s.len()
        invariant
            i <= s.len(),
            forall|j: int| 0 <= j < i ==> is_lower_hex_char(#[trigger] s@[j]),
        decreases s.len() - i,
    {
        let c = s[i];
        if !((c >= '0' && c <= '9') || (c >= 'a' && c <= 'f')) {
            assert(!is_lower_hex_char(s@[i as int]));
            return false;
        }
        i += 1;
    }
    true
}

/// The ASCII codes of lower-case hexadecimal digits.
fn codes_of(s: &[char]) -> (v: Vec<u8>)
    requires
        forall|i: int| 0 <= i < s@.len() ==> is_lower_hex_char(#[trigger] s@[i]),
    ensures
        v@ == codes(s@),
        all_lower_hex(v@),
{
    let mut v: Vec<u8> = Vec::new();
    let mut i: usize = 0;
    while i < s.len()
        invariant
            i <= s.len(),
            forall|j: int| 0 <= j < s@.len() ==> is_lower_hex_char(#[trigger] s@[j]),
            v@ == codes(s@.take(i as int)),
            all_lower_hex(v@),
        decreases s.len() - i,
    {
        let c = s[i];
        assert(is_lower_hex_char(s@[i as int]));
        v.push(c as u8);
        i += 1;
        assert(v@ =~= codes(s@.take(i as int)));
    }
    assert(s@.take(s.len() as int) == s@);
    v
}

impl Swhid {
    /// The version of the grammar.
    pub const VERSION: &'static str = "1";

    /// The identifier of the object of type `object_type` with the digest
    /// `digest`.
    pub fn new(object_type: ObjectType, digest: [u8; 20]) -> (r: Swhid)
        ensures
            r@ == (SwhidView { object_type, digest: digest@ }),
    {
        Swhid { object_type, digest }
    }

    /// The identifier of the object of type `object_type` whose manifest, or
    /// whose bytes for a content, is `payload`: its digest is that of the
    /// header of the type followed by the payload.
    pub fn of_object(object_type: ObjectType, payload: &[u8]) -> (r: Swhid)
        ensures
            r@ == (SwhidView { object_type, digest: object_digest(object_type.label(), payload@) }),
    {
        Swhid { object_type, digest: hash_swhid_object(object_type.header_label(), payload) }
    }

    /// The digest of an identifier has twenty bytes: so its text reads back
    /// as the identifier.
    pub proof fn lemma_digest_len(self)
        ensures
            self@.digest.len() == 20,
            parse_core_spec(self@.text()) == Ok::<SwhidView, SwhidErrorView>(self@),
    {
        lemma_parse_of_text(self@);
    }

    /// The type of the object.
    pub fn object_type(&self) -> (r: ObjectType)
        ensures
            r == self@.object_type,
    {
        self.object_type
    }

    /// The digest of the object.
    pub fn digest_bytes(&self) -> (r: &[u8; 20])
        ensures
            r@ == self@.digest,
    {
        &self.digest
    }

    /// The digest of the object in lower-case hexadecimal.
    pub fn digest_hex(&self) -> (r: String)
        ensures
            r@ == ascii(hex_encoding(self@.digest)),
    {
        hex_encode(self.digest.as_slice())
    }

    /// The text of the identifier.
    pub fn to_string(&self) -> (r: String)
        ensures
            r@ == self@.text(),
    {
        proof {
            reveal_strlit("swh:1:");
            reveal_strlit(":");
        }
        let mut r = String::from_str("swh:1:");
        r.append(self.object_type.as_tag());
        r.append(":");
        let h = self.digest_hex();
        r.append(h.as_str());
        assert(r@ =~= self@.text());
        r
    }

    /// Reads a core identifier from its characters.
    pub fn parse_chars(s: &[char]) -> (r: Result<Swhid, SwhidError>)
        ensures
            match r {
                Ok(id) => parse_core_spec(s@) == Ok::<SwhidView, SwhidErrorView>(id@),
                Err(e) => parse_core_spec(s@) == Err::<SwhidView, SwhidErrorView>(e@),
            },
    {
        if s.len() == 0 {
            return Err(SwhidError::InvalidFormat(string_of(s)));
        }
        proof {
            reveal_strlit("swh");
            reveal_strlit("1");
            assert("swh"@ =~= scheme_text());
            assert("1"@ =~= version_text());
        }
        let (scheme, rest) = split_chars(s, ':');
        if !chars_are(scheme, "swh") {
            return Err(SwhidError::InvalidScheme(string_of(scheme)));
        }
        let s1 = match rest {
            Some(t) => t,
            None => { return Err(SwhidError::InvalidFormat(string_of(s))); },
        };
        let (version, rest) = split_chars(s1, ':');
        if !chars_are(version, "1") {
            return Err(SwhidError::InvalidVersion(string_of(version)));
        }
        let s2 = match rest {
            Some(t) => t,
            None => { return Err(SwhidError::InvalidFormat(string_of(s))); },
        };
        let (tag, rest) = split_chars(s2, ':');
        let object_type = match ObjectType::from_tag_chars(tag) {
            Some(t) => t,
            None => { return Err(SwhidError::InvalidObjectType(string_of(tag))); },
        };
        let s3 = match rest {
            Some(t) => t,
            None => { return Err(SwhidError::InvalidFormat(string_of(s))); },
        };
        let (digest_hex, rest) = split_chars(s3, ':');
        if rest.is_some() {
            return Err(SwhidError::InvalidFormat(string_of(s)));
        }
        proof {
            lemma_first_index(s3@, ':');
            assert(digest_hex@ =~= s3@);
        }
        if digest_hex.len() != 40 || !all_lower_hex_chars(digest_hex) {
            return Err(SwhidError::InvalidDigest(string_of(digest_hex)));
        }
        let text = codes_of(digest_hex);
        match hex_decode_digest(text.as_slice()) {
            Ok(digest) => Ok(Swhid { object_type, digest }),
            Err(_) => Err(SwhidError::InvalidDigest(string_of(digest_hex))),
        }
    }

    /// Reads a core identifier: `swh:1:<tag>:<digest>`, with one of the five
    /// tags and a digest of forty lower-case hexadecimal digits. Case
    /// counts, and nothing may stand before or behind.
    pub fn parse(s: &str) -> (r: Result<Swhid, SwhidError>)
        ensures
            match r {
                Ok(id) => parse_core_spec(s@) == Ok::<SwhidView, SwhidErrorView>(id@),
                Err(e) => parse_core_spec(s@) == Err::<SwhidView, SwhidErrorView>(e@),
            },
    {
        let chars = chars_of(s);
        Swhid::parse_chars(chars.as_slice())
    }
}

impl std::str::FromStr for Swhid {
    type Err = SwhidError;

    /// Reads a core identifier, as `Swhid::parse` does.
    fn from_str(s: &str) -> (r: Result<Swhid, SwhidError>)
        ensures
            match r {
                Ok(id) => parse_core_spec(s@) == Ok::<SwhidView, SwhidErrorView>(id@),
                Err(e) => parse_core_spec(s@) == Err::<SwhidView, SwhidErrorView>(e@),
            },
    {
        Swhid::parse(s)
    }
}

} // verus!

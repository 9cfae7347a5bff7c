//! Qualified identifiers: a core identifier, and behind it items
//! `;key=value` that say where the object was found.

use vstd::prelude::*;
use vstd::string::*;
use crate::digits::{ascii, decimal, parse_u64, parse_u64_spec, push_decimal};
use crate::error::{SwhidError, SwhidErrorView};
use crate::identifier::{parse_core_spec, Swhid, SwhidView};
use crate::seqs::{has_tail, head, lemma_tail_shorter, split_chars, tail};
use crate::text::{chars_are, chars_of, push_ascii, string_of};

verus! {

/// A line, or the lines from `start` to `end`, both counted in.
#[derive(Debug, Clone, PartialEq, Eq)]
pub struct LineRange {
    pub start: u64,
    pub end: Option<u64>,
}

/// A byte, or the bytes from `start` to `end`, both counted in.
#[derive(Debug, Clone, PartialEq, Eq)]
pub struct ByteRange {
    pub start: u64,
    pub end: Option<u64>,
}

/// The keys that have a meaning, in the order in which they are written.
#[derive(Debug, Clone, Copy, PartialEq, Eq, Hash, Structural)]
pub enum KnownKey {
    Origin,
    Visit,
    Anchor,
    Path,
    Lines,
    Bytes,
}

impl KnownKey {
    /// The text of the key.
    pub open spec fn text(self) -> Seq<char> {
        match self {
            KnownKey::Origin => seq!['o', 'r', 'i', 'g', 'i', 'n'],
            KnownKey::Visit => seq!['v', 'i', 's', 'i', 't'],
            KnownKey::Anchor => seq!['a', 'n', 'c', 'h', 'o', 'r'],
            KnownKey::Path => seq!['p', 'a', 't', 'h'],
            KnownKey::Lines => seq!['l', 'i', 'n', 'e', 's'],
            KnownKey::Bytes => seq!['b', 'y', 't', 'e', 's'],
        }
    }

    /// The key that `s` is, where it is one of the six.
    pub open spec fn of_text(s: Seq<char>) -> Option<KnownKey> {
        if s == KnownKey::Origin.text() {
            Some(KnownKey::Origin)
        } else if s == KnownKey::Visit.text() {
            Some(KnownKey::Visit)
        } else if s == KnownKey::Anchor.text() {
            Some(KnownKey::Anchor)
        } else if s == KnownKey::Path.text() {
            Some(KnownKey::Path)
        } else if s == KnownKey::Lines.text() {
            Some(KnownKey::Lines)
        } else if s == KnownKey::Bytes.text() {
            Some(KnownKey::Bytes)
        } else {
            None
        }
    }

    /// The text of the key.
    pub fn as_str(self) -> (r: &'static str)
        ensures
            r@ == self.text(),
    {
        proof {
            reveal_strlit("origin");
            reveal_strlit("visit");
            reveal_strlit("anchor");
            reveal_strlit("path");
            reveal_strlit("lines");
            reveal_strlit("bytes");
        }
        let r = match self {
            KnownKey::Origin => "origin",
            KnownKey::Visit => "visit",
            KnownKey::Anchor => "anchor",
            KnownKey::Path => "path",
            KnownKey::Lines => "lines",
            KnownKey::Bytes => "bytes",
        };
        assert(r@ =~= self.text());
        r
    }

    /// The key that the characters of `s` are, where they are one of the
    /// six.
    pub fn from_chars(s: &[char]) -> (r: Option<KnownKey>)
        ensures
            r == KnownKey::of_text(s@),
    {
        if chars_are(s, KnownKey::Origin.as_str()) {
            Some(KnownKey::Origin)
        } else if chars_are(s, KnownKey::Visit.as_str()) {
            Some(KnownKey::Visit)
        } else if chars_are(s, KnownKey::Anchor.as_str()) {
            Some(KnownKey::Anchor)
        } else if chars_are(s, KnownKey::Path.as_str()) {
            Some(KnownKey::Path)
        } else if chars_are(s, KnownKey::Lines.as_str()) {
            Some(KnownKey::Lines)
        } else if chars_are(s, KnownKey::Bytes.as_str()) {
            Some(KnownKey::Bytes)
        } else {
            None
        }
    }
}

/// The text of a range: the start in decimal, and behind it, where there is
/// an end, a `-` and the end in decimal.
pub open spec fn range_text(start: u64, end: Option<u64>) -> Seq<char> {
    match end {
        Some(e) => ascii(decimal(start as nat)) + seq!['-'] + ascii(decimal(e as nat)),
        None => ascii(decimal(start as nat)),
    }
}

/// The range that `s` stands for: `N`, or `N-M` where `M` is no smaller
/// than `N`, each an unsigned 64-bit number in decimal.
pub open spec fn parse_range_spec(s: Seq<char>) -> Option<(u64, Option<u64>)> {
    if has_tail(s, '-') {
        match (parse_u64_spec(head(s, '-')), parse_u64_spec(tail(s, '-'))) {
            (Some(a), Some(b)) => if b < a {
                None
            } else {
                Some((a, Some(b)))
            },
            _ => None,
        }
    } else {
        match parse_u64_spec(s) {
            Some(a) => Some((a, None)),
            None => None,
        }
    }
}

/// `range`, the key under which a range that is refused is reported.
pub open spec fn range_key() -> Seq<char> {
    seq!['r', 'a', 'n', 'g', 'e']
}

/// Appends the text of a range to `out`.
fn push_range(out: &mut String, start: u64, end: Option<u64>)
    ensures
        final(out)@ == old(out)@ + range_text(start, end),
{
    let mut digits: Vec<u8> = Vec::new();
    push_decimal(&mut digits, start);
    push_ascii(out, digits.as_slice());
    match end {
        Some(e) => {
            let mut digits: Vec<u8> = Vec::new();
            push_decimal(&mut digits, e);
            proof {
                reveal_strlit("-");
            }
            out.append("-");
            push_ascii(out, digits.as_slice());
            assert(out@ =~= old(out)@ + range_text(start, end));
        },
        None => {},
    }
}

/// Reads a range from its characters.
fn parse_range_chars(s: &[char]) -> (r: Result<(u64, Option<u64>), SwhidError>)
    ensures
        match r {
            Ok(range) => parse_range_spec(s@) == Some(range),
            Err(e) => parse_range_spec(s@) is None && e@ == (SwhidErrorView::InvalidQualifierValue {
                key: range_key(),
                value: s@,
            }),
        },
{
    proof {
        reveal_strlit("range");
        assert("range"@ =~= range_key());
    }
    let (first, rest) = split_chars(s, '-');
    let parsed = match rest {
        Some(second) => match (parse_u64(first), parse_u64(second)) {
            (Some(a), Some(b)) => if b < a {
                None
            } else {
                Some((a, Some(b)))
            },
            _ => None,
        },
        None => {
            proof {
                crate::seqs::lemma_first_index(s@, '-');
                assert(first@ =~= s@);
            }
            match parse_u64(first) {
                Some(a) => Some((a, None)),
                None => None,
            }
        },
    };
    match parsed {
        Some(range) => Ok(range),
        None => Err(
            SwhidError::InvalidQualifierValue {
                key: String::from_str("range"),
                value: string_of(s),
            },
        ),
    }
}

/// Reads a range: `N`, or `N-M` where `M` is no smaller than `N`, each an
/// unsigned 64-bit number in decimal. Anything else is refused as an invalid
/// value of the key `range`.
pub fn parse_range(s: &str) -> (r: Result<(u64, Option<u64>), SwhidError>)
    ensures
        match r {
            Ok(range) => parse_range_spec(s@) == Some(range),
            Err(e) => parse_range_spec(s@) is None && e@ == (SwhidErrorView::InvalidQualifierValue {
                key: range_key(),
                value: s@,
            }),
        },
{
    let chars = chars_of(s);
    parse_range_chars(chars.as_slice())
}

impl LineRange {
    /// The text of the range.
    pub fn to_string(&self) -> (r: String)
        ensures
            r@ == range_text(self.start, self.end),
    {
        let mut r = String::new();
        push_range(&mut r, self.start, self.end);
        assert(r@ =~= range_text(self.start, self.end));
        r
    }
}

impl ByteRange {
    /// The text of the range.
    pub fn to_string(&self) -> (r: String)
        ensures
            r@ == range_text(self.start, self.end),
    {
        let mut r = String::new();
        push_range(&mut r, self.start, self.end);
        assert(r@ =~= range_text(self.start, self.end));
        r
    }
}

/// A qualified identifier: a core identifier with what is known of where the
/// object was found. Items with a key that has no meaning here are kept as
/// they stand, in their order.
#[derive(Debug, Clone, PartialEq, Eq)]
pub struct QualifiedSwhid {
    core: Swhid,
    origin: Option<String>,
    visit: Option<Swhid>,
    anchor: Option<Swhid>,
    path: Option<String>,
    lines: Option<LineRange>,
    bytes: Option<ByteRange>,
    others: Vec<(String, String)>,
}

/// A qualified identifier with its texts as sequences of characters.
pub struct QualifiedView {
    pub core: SwhidView,
    pub origin: Option<Seq<char>>,
    pub visit: Option<SwhidView>,
    pub anchor: Option<SwhidView>,
    pub path: Option<Seq<char>>,
    pub lines: Option<LineRange>,
    pub bytes: Option<ByteRange>,
    pub others: Seq<(Seq<char>, Seq<char>)>,
}

/// The view of a text that may be absent.
pub open spec fn text_view(s: Option<String>) -> Option<Seq<char>> {
    match s {
        Some(t) => Some(t@),
        None => None,
    }
}

/// The view of an identifier that may be absent.
pub open spec fn id_view(s: Option<Swhid>) -> Option<SwhidView> {
    match s {
        Some(t) => Some(t@),
        None => None,
    }
}

/// The views of items: each a key and a value.
pub open spec fn items_view(items: Seq<(String, String)>) -> Seq<(Seq<char>, Seq<char>)> {
    items.map_values(|p: (String, String)| (p.0@, p.1@))
}

impl View for QualifiedSwhid {
    type V = QualifiedView;

    closed spec fn view(&self) -> QualifiedView {
        QualifiedView {
            core: self.core@,
            origin: text_view(self.origin),
            visit: id_view(self.visit),
            anchor: id_view(self.anchor),
            path: text_view(self.path),
            lines: self.lines,
            bytes: self.bytes,
            others: items_view(self.others@),
        }
    }
}

/// The text of an item: `;`, the key, `=`, and the value.
pub open spec fn item_text(key: Seq<char>, value: Seq<char>) -> Seq<char> {
    seq![';'] + key + seq!['='] + value
}

/// The text of items, in their order.
pub open spec fn items_text(items: Seq<(Seq<char>, Seq<char>)>) -> Seq<char>
    decreases items.len(),
{
    if items.len() == 0 {
        Seq::empty()
    } else {
        item_text(items[0].0, items[0].1) + items_text(items.drop_first())
    }
}

/// The text of an item that may be absent.
pub open spec fn optional_item(key: Seq<char>, value: Option<Seq<char>>) -> Seq<char> {
    match value {
        Some(v) => item_text(key, v),
        None => Seq::empty(),
    }
}

/// The text of an identifier that may be absent.
pub open spec fn id_text(id: Option<SwhidView>) -> Option<Seq<char>> {
    match id {
        Some(v) => Some(v.text()),
        None => None,
    }
}

/// The text of lines that may be absent.
pub open spec fn lines_text(lines: Option<LineRange>) -> Option<Seq<char>> {
    match lines {
        Some(l) => Some(range_text(l.start, l.end)),
        None => None,
    }
}

/// The text of bytes that may be absent.
pub open spec fn bytes_text(bytes: Option<ByteRange>) -> Option<Seq<char>> {
    match bytes {
        Some(b) => Some(range_text(b.start, b.end)),
        None => None,
    }
}

impl QualifiedView {
    /// The qualified identifier that holds `core` and nothing else.
    pub open spec fn bare(core: SwhidView) -> QualifiedView {
        QualifiedView {
            core,
            origin: None,
            visit: None,
            anchor: None,
            path: None,
            lines: None,
            bytes: None,
            others: Seq::empty(),
        }
    }

    /// The text of the qualified identifier: the core identifier, then the
    /// items with a known key that are there, in the one order in which they
    /// are written (origin, visit, anchor, path, lines, bytes), then the
    /// others in their order.
    pub open spec fn text(self) -> Seq<char> {
        self.core.text() + optional_item(KnownKey::Origin.text(), self.origin) + optional_item(
            KnownKey::Visit.text(),
            id_text(self.visit),
        ) + optional_item(KnownKey::Anchor.text(), id_text(self.anchor)) + optional_item(
            KnownKey::Path.text(),
            self.path,
        ) + optional_item(KnownKey::Lines.text(), lines_text(self.lines)) + optional_item(
            KnownKey::Bytes.text(),
            bytes_text(self.bytes),
        ) + items_text(self.others)
    }
}

/// What an item makes of a qualified identifier. An empty item changes
/// nothing. An item without `=`, or with nothing before it, is a format
/// error. A known key sets its field, and the value of `visit` and `anchor`
/// is read as a core identifier, that of `lines` and `bytes` as a range. Any
/// other key is kept with its value, behind those that were kept before.
pub open spec fn apply_item(q: QualifiedView, item: Seq<char>) -> Result<
    QualifiedView,
    SwhidErrorView,
> {
    let key = head(item, '=');
    let value = tail(item, '=');
    if item.len() == 0 {
        Ok(q)
    } else if !has_tail(item, '=') || key.len() == 0 {
        Err(SwhidErrorView::InvalidFormat(item))
    } else {
        match KnownKey::of_text(key) {
            Some(KnownKey::Origin) => Ok(QualifiedView { origin: Some(value), ..q }),
            Some(KnownKey::Visit) => match parse_core_spec(value) {
                Ok(id) => Ok(QualifiedView { visit: Some(id), ..q }),
                Err(e) => Err(e),
            },
            Some(KnownKey::Anchor) => match parse_core_spec(value) {
                Ok(id) => Ok(QualifiedView { anchor: Some(id), ..q }),
                Err(e) => Err(e),
            },
            Some(KnownKey::Path) => Ok(QualifiedView { path: Some(value), ..q }),
            Some(KnownKey::Lines) => match parse_range_spec(value) {
                Some((start, end)) => Ok(
                    QualifiedView { lines: Some(LineRange { start, end }), ..q },
                ),
                None => Err(
                    SwhidErrorView::InvalidQualifierValue { key: range_key(), value },
                ),
            },
            Some(KnownKey::Bytes) => match parse_range_spec(value) {
                Some((start, end)) => Ok(
                    QualifiedView { bytes: Some(ByteRange { start, end }), ..q },
                ),
                None => Err(
                    SwhidErrorView::InvalidQualifierValue { key: range_key(), value },
                ),
            },
            None => Ok(QualifiedView { others: q.others.push((key, value)), ..q }),
        }
    }
}

/// What the items of `rest`, which are split at `;`, make of a qualified
/// identifier, one after the other. The first that is refused ends it.
pub open spec fn apply_items(q: QualifiedView, rest: Seq<char>) -> Result<
    QualifiedView,
    SwhidErrorView,
>
    decreases rest.len(),
    via apply_items_decreases
{
    match apply_item(q, head(rest, ';')) {
        Err(e) => Err(e),
        Ok(next) => if has_tail(rest, ';') {
            apply_items(next, tail(rest, ';'))
        } else {
            Ok(next)
        },
    }
}

#[via_fn]
proof fn apply_items_decreases(q: QualifiedView, rest: Seq<char>) {
    if has_tail(rest, ';') {
        lemma_tail_shorter(rest, ';');
    }
}

/// What reading `s` as a qualified identifier gives: what stands before the
/// first `;` is read as a core identifier, and what stands behind it as
/// items.
pub open spec fn parse_qualified_spec(s: Seq<char>) -> Result<QualifiedView, SwhidErrorView> {
    match parse_core_spec(head(s, ';')) {
        Err(e) => Err(e),
        Ok(core) => if has_tail(s, ';') {
            apply_items(QualifiedView::bare(core), tail(s, ';'))
        } else {
            Ok(QualifiedView::bare(core))
        },
    }
}

impl QualifiedSwhid {
    /// The qualified identifier that holds `core` and nothing else.
    pub fn new(core: Swhid) -> (r: QualifiedSwhid)
        ensures
            r@ == QualifiedView::bare(core@),
    {
        let r = QualifiedSwhid {
            core,
            origin: None,
            visit: None,
            anchor: None,
            path: None,
            lines: None,
            bytes: None,
            others: Vec::new(),
        };
        assert(r@.others =~= Seq::empty());
        r
    }

    /// The digests of a qualified identifier, that of its core identifier,
    /// of its visit and of its anchor, have twenty bytes each.
    pub proof fn lemma_digest_lens(self)
        ensures
            self@.core.digest.len() == 20,
            self@.visit matches Some(v) ==> v.digest.len() == 20,
            self@.anchor matches Some(a) ==> a.digest.len() == 20,
    {
        self.core.lemma_digest_len();
        match self.visit {
            Some(v) => {
                v.lemma_digest_len();
            },
            None => {},
        }
        match self.anchor {
            Some(a) => {
                a.lemma_digest_len();
            },
            None => {},
        }
    }

    /// The core identifier.
    pub fn core_swhid(&self) -> (r: &Swhid)
        ensures
            r@ == self@.core,
    {
        &self.core
    }

    /// Where the object was found, as it was given.
    pub fn origin(&self) -> (r: Option<&String>)
        ensures
            match r {
                Some(s) => self@.origin == Some(s@),
                None => self@.origin is None,
            },
    {
        self.origin.as_ref()
    }

    /// The snapshot in which the object was found.
    pub fn visit(&self) -> (r: Option<&Swhid>)
        ensures
            match r {
                Some(s) => self@.visit == Some(s@),
                None => self@.visit is None,
            },
    {
        self.visit.as_ref()
    }

    /// The object from which the path starts.
    pub fn anchor(&self) -> (r: Option<&Swhid>)
        ensures
            match r {
                Some(s) => self@.anchor == Some(s@),
                None => self@.anchor is None,
            },
    {
        self.anchor.as_ref()
    }

    /// The path of the object below the anchor.
    pub fn path(&self) -> (r: Option<&String>)
        ensures
            match r {
                Some(s) => self@.path == Some(s@),
                None => self@.path is None,
            },
    {
        self.path.as_ref()
    }

    /// The lines that are meant.
    pub fn lines(&self) -> (r: Option<&LineRange>)
        ensures
            match r {
                Some(s) => self@.lines == Some(*s),
                None => self@.lines is None,
            },
    {
        self.lines.as_ref()
    }

    /// The bytes that are meant.
    pub fn bytes(&self) -> (r: Option<&ByteRange>)
        ensures
            match r {
                Some(s) => self@.bytes == Some(*s),
                None => self@.bytes is None,
            },
    {
        self.bytes.as_ref()
    }

    /// The items whose key has no meaning here, in their order.
    pub fn others(&self) -> (r: &[(String, String)])
        ensures
            items_view(r@) == self@.others,
    {
        self.others.as_slice()
    }

    /// The same, found at `url`.
    pub fn with_origin(self, url: &str) -> (r: QualifiedSwhid)
        ensures
            r@ == (QualifiedView { origin: Some(url@), ..self@ }),
    {
        let mut r = self;
        r.origin = Some(String::from_str(url));
        r
    }

    /// The same, found in the snapshot `id`.
    pub fn with_visit(self, id: Swhid) -> (r: QualifiedSwhid)
        ensures
            r@ == (QualifiedView { visit: Some(id@), ..self@ }),
    {
        let mut r = self;
        r.visit = Some(id);
        r
    }

    /// The same, with the path starting from `id`.
    pub fn with_anchor(self, id: Swhid) -> (r: QualifiedSwhid)
        ensures
            r@ == (QualifiedView { anchor: Some(id@), ..self@ }),
    {
        let mut r = self;
        r.anchor = Some(id);
        r
    }

    /// The same, found at `path`.
    pub fn with_path(self, path: &str) -> (r: QualifiedSwhid)
        ensures
            r@ == (QualifiedView { path: Some(path@), ..self@ }),
    {
        let mut r = self;
        r.path = Some(String::from_str(path));
        r
    }

    /// The same, with `lines` meant.
    pub fn with_lines(self, lines: LineRange) -> (r: QualifiedSwhid)
        ensures
            r@ == (QualifiedView { lines: Some(lines), ..self@ }),
    {
        let mut r = self;
        r.lines = Some(lines);
        r
    }

    /// The same, with `bytes` meant.
    pub fn with_bytes(self, bytes: ByteRange) -> (r: QualifiedSwhid)
        ensures
            r@ == (QualifiedView { bytes: Some(bytes), ..self@ }),
    {
        let mut r = self;
        r.bytes = Some(bytes);
        r
    }

    /// The same, with the item of `key` and `value` kept behind the others.
    pub fn push_unknown(self, key: &str, value: &str) -> (r: QualifiedSwhid)
        ensures
            r@ == (QualifiedView { others: self@.others.push((key@, value@)), ..self@ }),
    {
        let mut r = self;
        r.others.push((String::from_str(key), String::from_str(value)));
        assert(r@.others =~= self@.others.push((key@, value@)));
        r
    }

    /// What the item `item` makes of `self`.
    fn apply(self, item: &[char]) -> (r: Result<QualifiedSwhid, SwhidError>)
        ensures
            match r {
                Ok(q) => apply_item(self@, item@) == Ok::<QualifiedView, SwhidErrorView>(q@),
                Err(e) => apply_item(self@, item@) == Err::<QualifiedView, SwhidErrorView>(e@),
            },
    {
        if item.len() == 0 {
            return Ok(self);
        }
        let (key, rest) = split_chars(item, '=');
        let value = match rest {
            Some(v) => v,
            None => { return Err(SwhidError::InvalidFormat(string_of(item))); },
        };
        if key.len() == 0 {
            return Err(SwhidError::InvalidFormat(string_of(item)));
        }
        let mut q = self;
        match KnownKey::from_chars(key) {
            Some(KnownKey::Origin) => {
                q.origin = Some(string_of(value));
            },
            Some(KnownKey::Visit) => {
                match Swhid::parse_chars(value) {
                    Ok(id) => {
                        q.visit = Some(id);
                    },
                    Err(e) => { return Err(e); },
                }
            },
            Some(KnownKey::Anchor) => {
                match Swhid::parse_chars(value) {
                    Ok(id) => {
                        q.anchor = Some(id);
                    },
                    Err(e) => { return Err(e); },
                }
            },
            Some(KnownKey::Path) => {
                q.path = Some(string_of(value));
            },
            Some(KnownKey::Lines) => {
                match parse_range_chars(value) {
                    Ok((start, end)) => {
                        q.lines = Some(LineRange { start, end });
                    },
                    Err(e) => { return Err(e); },
                }
            },
            Some(KnownKey::Bytes) => {
                match parse_range_chars(value) {
                    Ok((start, end)) => {
                        q.bytes = Some(ByteRange { start, end });
                    },
                    Err(e) => { return Err(e); },
                }
            },
            None => {
                q.others.push((string_of(key), string_of(value)));
                assert(q@.others =~= self@.others.push((key@, value@)));
            },
        }
        Ok(q)
    }

    /// Reads a qualified identifier from its characters.
    pub fn parse_chars(s: &[char]) -> (r: Result<QualifiedSwhid, SwhidError>)
        ensures
            match r {
                Ok(q) => parse_qualified_spec(s@) == Ok::<QualifiedView, SwhidErrorView>(q@),
                Err(e) => parse_qualified_spec(s@) == Err::<QualifiedView, SwhidErrorView>(e@),
            },
    {
        let (core_text, tail) = split_chars(s, ';');
        let core = match Swhid::parse_chars(core_text) {
            Ok(id) => id,
            Err(e) => { return Err(e); },
        };
        let mut q = QualifiedSwhid::new(core);
        let mut rest = tail;
        while rest.is_some()
            invariant
                parse_qualified_spec(s@) == (match rest {
                    Some(r) => apply_items(q@, r@),
                    None => Ok(q@),
                }),
            decreases
                    (match rest {
                        Some(r) => r@.len() + 1,
                        None => 0,
                    }),
        {
            let items = rest.unwrap();
            let (item, next) = split_chars(items, ';');
            proof {
                if has_tail(items@, ';') {
                    lemma_tail_shorter(items@, ';');
                }
            }
            match q.apply(item) {
                Ok(changed) => {
                    q = changed;
                },
                Err(e) => { return Err(e); },
            }
            rest = next;
        }
        Ok(q)
    }

    /// Reads a qualified identifier: a core identifier, and behind it any
    /// number of items `;key=value`. Empty items are passed over. Where a
    /// known key comes twice, the later value stands.
    pub fn parse(s: &str) -> (r: Result<QualifiedSwhid, SwhidError>)
        ensures
            match r {
                Ok(q) => parse_qualified_spec(s@) == Ok::<QualifiedView, SwhidErrorView>(q@),
                Err(e) => parse_qualified_spec(s@) == Err::<QualifiedView, SwhidErrorView>(e@),
            },
    {
        let chars = chars_of(s);
        QualifiedSwhid::parse_chars(chars.as_slice())
    }

    /// The text of the qualified identifier, with its items in the one
    /// order in which they are written.
    pub fn to_string(&self) -> (r: String)
        ensures
            r@ == self@.text(),
    {
        let mut r = self.core.to_string();
        match &self.origin {
            Some(o) => {
                push_item(&mut r, KnownKey::Origin.as_str(), o.as_str());
            },
            None => {},
        }
        let ghost t1 = self@.core.text() + optional_item(KnownKey::Origin.text(), self@.origin);
        assert(r@ =~= t1);
        match &self.visit {
            Some(v) => {
                let text = v.to_string();
                push_item(&mut r, KnownKey::Visit.as_str(), text.as_str());
            },
            None => {},
        }
        let ghost t2 = t1 + optional_item(KnownKey::Visit.text(), id_text(self@.visit));
        assert(r@ =~= t2);
        match &self.anchor {
            Some(a) => {
                let text = a.to_string();
                push_item(&mut r, KnownKey::Anchor.as_str(), text.as_str());
            },
            None => {},
        }
        let ghost t3 = t2 + optional_item(KnownKey::Anchor.text(), id_text(self@.anchor));
        assert(r@ =~= t3);
        match &self.path {
            Some(p) => {
                push_item(&mut r, KnownKey::Path.as_str(), p.as_str());
            },
            None => {},
        }
        let ghost t4 = t3 + optional_item(KnownKey::Path.text(), self@.path);
        assert(r@ =~= t4);
        match &self.lines {
            Some(l) => {
                let text = l.to_string();
                push_item(&mut r, KnownKey::Lines.as_str(), text.as_str());
            },
            None => {},
        }
        let ghost t5 = t4 + optional_item(KnownKey::Lines.text(), lines_text(self@.lines));
        assert(r@ =~= t5);
        match &self.bytes {
            Some(b) => {
                let text = b.to_string();
                push_item(&mut r, KnownKey::Bytes.as_str(), text.as_str());
            },
            None => {},
        }
        let ghost t6 = t5 + optional_item(KnownKey::Bytes.text(), bytes_text(self@.bytes));
        assert(r@ =~= t6);
        push_items(&mut r, &self.others);
        r
    }
}

/// Appends the text of the item of `key` and `value` to `out`.
fn push_item(out: &mut String, key: &str, value: &str)
    ensures
        final(out)@ == old(out)@ + item_text(key@, value@),
{
    proof {
        reveal_strlit(";");
        reveal_strlit("=");
    }
    out.append(";");
    out.append(key);
    out.append("=");
    out.append(value);
    assert(out@ =~= old(out)@ + item_text(key@, value@));
}

/// Appends the text of `items` to `out`.
fn push_items(out: &mut String, items: &Vec<(String, String)>)
    ensures
        final(out)@ == old(out)@ + items_text(items_view(items@)),
{
    let ghost all = items_view(items@);
    let mut i: usize = 0;
    assert(all.take(0) =~= Seq::empty());
    while i < items.len()
        invariant
            i <= items.len(),
            all == items_view(items@),
            out@ == old(out)@ + items_text(all.take(i as int)),
        decreases items.len() - i,
    {
        let ghost before = all.take(i as int);
        push_item(out, items[i].0.as_str(), items[i].1.as_str());
        proof {
            lemma_items_text_push(before, all[i as int]);
            assert(all.take(i + 1) =~= before.push(all[i as int]));
        }
        i += 1;
        assert(out@ =~= old(out)@ + items_text(all.take(i as int)));
    }
    assert(all.take(items.len() as int) =~= all);
}

/// The text of items with one more item behind them.
pub proof fn lemma_items_text_push(items: Seq<(Seq<char>, Seq<char>)>, item: (Seq<char>, Seq<char>))
    ensures
        items_text(items.push(item)) == items_text(items) + item_text(item.0, item.1),
    decreases items.len(),
{
    let all = items.push(item);
    if items.len() == 0 {
        assert(all.drop_first() =~= Seq::empty());
        assert(items_text(all.drop_first()) =~= Seq::<char>::empty());
        assert(items_text(all) =~= items_text(items) + item_text(item.0, item.1));
    } else {
        lemma_items_text_push(items.drop_first(), item);
        assert(all.drop_first() =~= items.drop_first().push(item));
        assert(items_text(all) =~= items_text(items) + item_text(item.0, item.1));
    }
}

impl std::str::FromStr for QualifiedSwhid {
    type Err = SwhidError;

    /// Reads a qualified identifier, as `QualifiedSwhid::parse` does.
    fn from_str(s: &str) -> (r: Result<QualifiedSwhid, SwhidError>)
        ensures
            match r {
                Ok(q) => parse_qualified_spec(s@) == Ok::<QualifiedView, SwhidErrorView>(q@),
                Err(e) => parse_qualified_spec(s@) == Err::<QualifiedView, SwhidErrorView>(e@),
            },
    {
        QualifiedSwhid::parse(s)
    }
}

} // verus!

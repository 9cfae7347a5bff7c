//! What the manifests of revisions, releases, directories and snapshots
//! share: header lines, and the search for a key that stands twice.

use vstd::prelude::*;
use crate::digits::{push_signed_decimal, signed_decimal};
use crate::lex::{lemma_lex_le_antisymmetric, lemma_lex_le_reflexive, lex_le};
use crate::perm::lemma_twice_at_two_places;
use crate::seqs::extend_bytes;
use crate::sorting::{ascending, distinct_keys, views, SortKey};

verus! {

/// `value` with a space put behind each of its line feeds, so that the lines
/// that continue a value are told from the line of the next key.
pub open spec fn folded(value: Seq<u8>) -> Seq<u8>
    decreases value.len(),
{
    if value.len() == 0 {
        Seq::empty()
    } else if value.last() == 10u8 {
        folded(value.drop_last()) + seq![10u8, 32u8]
    } else {
        folded(value.drop_last()).push(value.last())
    }
}

/// A header line: the key, a space, the folded value, and a line feed.
pub open spec fn header_line(key: Seq<u8>, value: Seq<u8>) -> Seq<u8> {
    key + seq![32u8] + folded(value) + seq![10u8]
}

/// The value of a header that says who did something and when: the name, a
/// space, the seconds since the epoch in decimal, a space, and the offset.
pub open spec fn authorship(name: Seq<u8>, timestamp: int, offset: Seq<u8>) -> Seq<u8> {
    name + seq![32u8] + signed_decimal(timestamp) + seq![32u8] + offset
}

/// What follows the headers: nothing, or an empty line and the message as
/// it stands.
pub open spec fn message_part(message: Option<Seq<u8>>) -> Seq<u8> {
    match message {
        Some(m) => seq![10u8] + m,
        None => Seq::empty(),
    }
}

/// The views of headers: each a key and a value.
pub open spec fn headers_view(headers: Seq<(Vec<u8>, Vec<u8>)>) -> Seq<(Seq<u8>, Seq<u8>)> {
    headers.map_values(|h: (Vec<u8>, Vec<u8>)| (h.0@, h.1@))
}

/// The view of bytes that may be absent.
pub open spec fn optional_view(bytes: Option<Vec<u8>>) -> Option<Seq<u8>> {
    match bytes {
        Some(b) => Some(b@),
        None => None,
    }
}

/// The header lines of `headers`, in their order.
pub open spec fn header_lines(headers: Seq<(Seq<u8>, Seq<u8>)>) -> Seq<u8>
    decreases headers.len(),
{
    if headers.len() == 0 {
        Seq::empty()
    } else {
        header_lines(headers.drop_last()) + header_line(headers.last().0, headers.last().1)
    }
}

/// The headers of a manifest, written line after line.
pub struct HeaderWriter {
    buf: Vec<u8>,
}

impl View for HeaderWriter {
    type V = Seq<u8>;

    closed spec fn view(&self) -> Seq<u8> {
        self.buf@
    }
}

impl HeaderWriter {
    /// A writer that holds nothing yet.
    pub fn new() -> (r: HeaderWriter)
        ensures
            r@ == Seq::<u8>::empty(),
    {
        HeaderWriter { buf: Vec::new() }
    }

    /// Writes the header line of `key` and `value`.
    pub fn push(&mut self, key: &[u8], value: &[u8])
        ensures
            final(self)@ == old(self)@ + header_line(key@, value@),
    {
        extend_bytes(&mut self.buf, key);
        self.buf.push(32u8);
        let ghost start = self.buf@;
        let mut i: usize = 0;
        while i < value.len()
            invariant
                i <= value.len(),
                self.buf@ == start + folded(value@.take(i as int)),
            decreases value.len() - i,
        {
            let byte = value[i];
            self.buf.push(byte);
            if byte == 10u8 {
                self.buf.push(32u8);
            }
            i += 1;
            proof {
                let done = value@.take(i as int);
                assert(done.drop_last() =~= value@.take(i - 1));
                assert(done.last() == byte);
                assert(self.buf@ =~= start + folded(done));
            }
        }
        assert(value@.take(value.len() as int) =~= value@);
        self.buf.push(10u8);
        assert(self.buf@ =~= old(self)@ + header_line(key@, value@));
    }

    /// Writes the header line of `key` for the one named `name`, at
    /// `timestamp` seconds since the epoch, with the offset `timestamp_offset`.
    pub fn push_authorship(
        &mut self,
        key: &[u8],
        name: &[u8],
        timestamp: i64,
        timestamp_offset: &[u8],
    )
        ensures
            final(self)@ == old(self)@ + header_line(
                key@,
                authorship(name@, timestamp as int, timestamp_offset@),
            ),
    {
        let mut value: Vec<u8> = Vec::new();
        extend_bytes(&mut value, name);
        value.push(32u8);
        push_signed_decimal(&mut value, timestamp);
        value.push(32u8);
        extend_bytes(&mut value, timestamp_offset);
        assert(value@ =~= authorship(name@, timestamp as int, timestamp_offset@));
        self.push(key, value.as_slice());
    }

    /// Writes the header lines of `headers`, in their order.
    pub fn push_all(&mut self, headers: &Vec<(Vec<u8>, Vec<u8>)>)
        ensures
            final(self)@ == old(self)@ + header_lines(headers_view(headers@)),
    {
        let mut i: usize = 0;
        assert(headers_view(headers@).take(0) =~= Seq::<(Seq<u8>, Seq<u8>)>::empty());
        while i < headers.len()
            invariant
                i <= headers.len(),
                self@ == old(self)@ + header_lines(headers_view(headers@).take(i as int)),
            decreases headers.len() - i,
        {
            let ghost before = self@;
            self.push(headers[i].0.as_slice(), headers[i].1.as_slice());
            i += 1;
            proof {
                let done = headers_view(headers@).take(i as int);
                assert(done.drop_last() =~= headers_view(headers@).take(i - 1));
                assert(done.last() == (headers@[i - 1].0@, headers@[i - 1].1@));
                assert(self@ =~= old(self)@ + header_lines(done));
            }
        }
        assert(headers_view(headers@).take(headers.len() as int) =~= headers_view(headers@));
    }

    /// The manifest: the headers, then the message where there is one.
    pub fn build(self, message: Option<&[u8]>) -> (r: Vec<u8>)
        ensures
            r@ == self@ + message_part(
                match message {
                    Some(m) => Some(m@),
                    None => None,
                },
            ),
    {
        let mut buf = self.buf;
        match message {
            Some(m) => {
                buf.push(10u8);
                extend_bytes(&mut buf, m);
                assert(buf@ =~= self@ + (seq![10u8] + m@));
            },
            None => {
                assert(buf@ =~= self@ + Seq::<u8>::empty());
            },
        }
        buf
    }
}

impl Default for HeaderWriter {
    fn default() -> (r: HeaderWriter)
        ensures
            r@ == Seq::<u8>::empty(),
    {
        HeaderWriter::new()
    }
}

/// Whether no key of `s` equals the key before it.
pub open spec fn no_repeat<T: SortKey>(s: Seq<T::V>) -> bool {
    forall|j: int| 0 <= j && j + 1 < s.len() ==> T::key(#[trigger] s[j]) != T::key(s[j + 1])
}

/// The place of the first item whose key is that of the item before it;
/// none where no key repeats the one before it.
pub fn check_unique<T: SortKey>(items: &Vec<T>) -> (r: Option<usize>)
    ensures
        match r {
            Some(k) => 1 <= k < items@.len() && T::key(items@[k - 1]@) == T::key(items@[k as int]@)
                && no_repeat::<T>(views(items@).take(k as int)),
            None => no_repeat::<T>(views(items@)),
        },
{
    let ghost all = views(items@);
    if items.len() == 0 {
        return None;
    }
    let mut i: usize = 1;
    while i < items.len()
        invariant
            1 <= i <= items.len(),
            all == views(items@),
            no_repeat::<T>(all.take(i as int)),
        decreases items.len() - i,
    {
        assert(all[i - 1] == items@[i - 1]@);
        assert(all[i as int] == items@[i as int]@);
        if items[i].key_le(&items[i - 1]) && items[i - 1].key_le(&items[i]) {
            proof {
                lemma_lex_le_antisymmetric(T::key(all[i - 1]), T::key(all[i as int]));
            }
            return Some(i);
        }
        proof {
            if T::key(all[i - 1]) == T::key(all[i as int]) {
                lemma_lex_le_reflexive(T::key(all[i as int]));
            }
            let next = all.take(i + 1);
            assert forall|j: int| 0 <= j && j + 1 < next.len() implies T::key(#[trigger] next[j])
                != T::key(next[j + 1]) by {
                if j + 1 < i {
                    assert(all.take(i as int)[j] == next[j]);
                    assert(all.take(i as int)[j + 1] == next[j + 1]);
                }
            }
        }
        i += 1;
    }
    assert(all.take(all.len() as int) =~= all);
    None
}

/// Keys that never go down, none of which repeats the one before it, all
/// differ.
pub proof fn lemma_no_repeat_distinct<T: SortKey>(s: Seq<T::V>)
    requires
        ascending::<T>(s),
        no_repeat::<T>(s),
    ensures
        distinct_keys::<T>(s),
{
    assert forall|p: int, q: int| 0 <= p < q < s.len() implies T::key(s[p]) != T::key(s[q]) by {
        if T::key(s[p]) == T::key(s[q]) {
            // what stands between two equal keys equals them
            assert(T::key(s[p]) != T::key(s[p + 1]));
            assert(lex_le(T::key(s[p]), T::key(s[p + 1])));
            if p + 1 < q {
                assert(lex_le(T::key(s[p + 1]), T::key(s[q])));
            } else {
                lemma_lex_le_reflexive(T::key(s[p]));
            }
            lemma_lex_le_antisymmetric(T::key(s[p]), T::key(s[p + 1]));
        }
    }
}

/// In keys that never go down, the first key that equals the one before it
/// is the smallest of the keys that occur twice.
pub proof fn lemma_first_duplicate_is_smallest(keys: Seq<Seq<u8>>, k: int, other: Seq<u8>)
    requires
        forall|i: int, j: int| 0 <= i < j < keys.len() ==> lex_le(keys[i], keys[j]),
        1 <= k < keys.len(),
        forall|j: int| 0 <= j && j + 1 < k ==> #[trigger] keys[j] != keys[j + 1],
        keys.to_multiset().count(other) >= 2,
    ensures
        lex_le(keys[k], other),
{
    lemma_twice_at_two_places(keys, other);
    let (p, q) = choose|p: int, q: int|
        0 <= p < q < keys.len() && keys[p] == other && keys[q] == other;
    // what stands between two equal keys equals them
    if p + 1 < q {
        assert(lex_le(keys[p], keys[p + 1]));
        assert(lex_le(keys[p + 1], keys[q]));
        lemma_lex_le_antisymmetric(keys[p], keys[p + 1]);
    }
    assert(keys[p] == keys[p + 1]);
    if k < p + 1 {
        assert(lex_le(keys[k], keys[p + 1]));
    } else {
        assert(k == p + 1);
        lemma_lex_le_reflexive(keys[k]);
    }
}

} // verus!

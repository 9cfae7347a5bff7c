//! Headers that are written are read back as they were.

use vstd::prelude::*;
use crate::git::{after_continuation, continuation, continues, parse_headers, HeaderError, ObjectParts};
use crate::seqs::{
    has_tail, head, lemma_concat_without, lemma_first_index, lemma_first_index_skip,
    lemma_one_without, lemma_split_join, lemma_split_of_join, tail,
};
use crate::utils::{folded, header_line, header_lines, message_part};

verus! {

/// Whether every key can be read back: it is not empty and holds no space
/// and no line feed.
pub open spec fn clean_keys(headers: Seq<(Seq<u8>, Seq<u8>)>) -> bool {
    forall|i: int|
        0 <= i < headers.len() ==> (#[trigger] headers[i]).0.len() > 0 && !headers[i].0.contains(
            32u8,
        ) && !headers[i].0.contains(10u8)
}

/// Folding two values, one behind the other, folds each.
pub proof fn lemma_folded_concat(a: Seq<u8>, b: Seq<u8>)
    ensures
        folded(a + b) == folded(a) + folded(b),
    decreases b.len(),
{
    if b.len() == 0 {
        assert(a + b =~= a);
        assert(folded(a + b) =~= folded(a) + folded(b));
    } else {
        lemma_folded_concat(a, b.drop_last());
        assert((a + b).drop_last() =~= a + b.drop_last());
        assert((a + b).last() == b.last());
        assert(folded(a + b) =~= folded(a) + folded(b));
    }
}

/// A value without line feed is folded as it stands.
pub proof fn lemma_folded_plain(value: Seq<u8>)
    requires
        !value.contains(10u8),
    ensures
        folded(value) == value,
    decreases value.len(),
{
    if value.len() > 0 {
        let front = value.drop_last();
        assert(value.last() != 10u8) by {
            assert(value.contains(value.last()));
        }
        assert(!front.contains(10u8)) by {
            if front.contains(10u8) {
                let i = choose|i: int| 0 <= i < front.len() && front[i] == 10u8;
                assert(value[i] == 10u8);
            }
        }
        lemma_folded_plain(front);
        assert(folded(value) =~= value);
    } else {
        assert(folded(value) =~= value);
    }
}

/// A folded value, behind which a line feed and then no space stand, is
/// read back as it was: its first line and the lines that continue it make
/// the value, and what stands behind them is what stood behind it.
pub proof fn lemma_unfold(value: Seq<u8>, behind: Seq<u8>)
    requires
        behind.len() == 0 || behind[0] != 32u8,
    ensures
        has_tail(folded(value) + seq![10u8] + behind, 10u8),
        head(folded(value) + seq![10u8] + behind, 10u8) + continuation(
            tail(folded(value) + seq![10u8] + behind, 10u8),
        ) == value,
        after_continuation(tail(folded(value) + seq![10u8] + behind, 10u8)) == behind,
    decreases value.len(),
{
    let text = folded(value) + seq![10u8] + behind;
    if !has_tail(value, 10u8) {
        lemma_first_index(value, 10u8);
        lemma_folded_plain(value);
        lemma_split_of_join(value, 10u8, behind);
        assert(!continues(behind));
        assert(value + continuation(behind) =~= value);
    } else {
        let first = head(value, 10u8);
        let more = tail(value, 10u8);
        lemma_split_join(value, 10u8);
        crate::seqs::lemma_tail_shorter(value, 10u8);
        lemma_folded_plain(first);
        lemma_folded_concat(first + seq![10u8], more);
        lemma_folded_concat(first, seq![10u8]);
        assert(folded(seq![10u8]) =~= seq![10u8, 32u8]) by {
            assert(seq![10u8].drop_last() =~= Seq::<u8>::empty());
            assert(folded(seq![10u8].drop_last()) =~= Seq::<u8>::empty());
        }
        let inner = folded(more) + seq![10u8] + behind;
        let next = seq![32u8] + inner;
        assert(text =~= first + seq![10u8] + next);
        lemma_split_of_join(first, 10u8, next);
        lemma_unfold(more, behind);
        assert(next.skip(1) =~= inner);
        assert forall|j: int| 0 <= j < 1 implies next[j] != 10u8 by {}
        lemma_first_index_skip(next, 10u8, 1);
        lemma_first_index(inner, 10u8);
        assert(head(next, 10u8) =~= seq![32u8] + head(inner, 10u8));
        assert(tail(next, 10u8) =~= tail(inner, 10u8));
        assert(continues(next));
        assert(head(next, 10u8).skip(1) =~= head(inner, 10u8));
        assert(continuation(next) =~= seq![10u8] + more);
        assert(first + continuation(next) =~= value);
    }
}

/// The header lines of headers, the first header first.
pub proof fn lemma_header_lines_front(headers: Seq<(Seq<u8>, Seq<u8>)>)
    requires
        headers.len() > 0,
    ensures
        header_lines(headers) == header_line(headers[0].0, headers[0].1) + header_lines(
            headers.drop_first(),
        ),
    decreases headers.len(),
{
    if headers.len() == 1 {
        assert(headers.drop_last() =~= Seq::empty());
        assert(headers.drop_first() =~= Seq::empty());
        assert(header_lines(headers) =~= header_line(headers[0].0, headers[0].1) + header_lines(
            headers.drop_first(),
        ));
    } else {
        let front = headers.drop_last();
        lemma_header_lines_front(front);
        assert(front[0] == headers[0]);
        assert(front.drop_first() =~= headers.drop_first().drop_last());
        assert(headers.drop_first().last() == headers.last());
        assert(header_lines(headers) =~= header_line(headers[0].0, headers[0].1) + header_lines(
            headers.drop_first(),
        ));
    }
}

/// The line of a header with a clean key, behind which no space stands, is
/// read back as the key and the value, and what stands behind it is what
/// stood behind it.
pub proof fn lemma_first_header(key: Seq<u8>, value: Seq<u8>, behind: Seq<u8>)
    requires
        key.len() > 0,
        !key.contains(32u8),
        !key.contains(10u8),
        behind.len() == 0 || behind[0] != 32u8,
    ensures
        (header_line(key, value) + behind).len() > 0,
        (header_line(key, value) + behind)[0] != 10u8,
        has_tail(header_line(key, value) + behind, 10u8),
        has_tail(head(header_line(key, value) + behind, 10u8), 32u8),
        head(head(header_line(key, value) + behind, 10u8), 32u8) == key,
        tail(head(header_line(key, value) + behind, 10u8), 32u8) + continuation(
            tail(header_line(key, value) + behind, 10u8),
        ) == value,
        after_continuation(tail(header_line(key, value) + behind, 10u8)) == behind,
{
    let text = header_line(key, value) + behind;
    let lines = folded(value) + seq![10u8] + behind;
    let front = key + seq![32u8];
    assert(text =~= front + lines);
    lemma_unfold(value, behind);
    assert(key.contains(key[0]));
    assert(text[0] == key[0]);
    // the first line ends where the first line of the value ends
    lemma_one_without(32u8, 10u8);
    lemma_concat_without(key, seq![32u8], 10u8);
    assert forall|j: int| 0 <= j < front.len() implies text[j] != 10u8 by {
        assert(text[j] == front[j]);
        assert(front.contains(front[j]));
    }
    lemma_first_index_skip(text, 10u8, front.len() as int);
    assert(text.skip(front.len() as int) =~= lines);
    lemma_first_index(lines, 10u8);
    let line = head(text, 10u8);
    assert(line =~= key + seq![32u8] + head(lines, 10u8));
    assert(tail(text, 10u8) =~= tail(lines, 10u8));
    lemma_split_of_join(key, 32u8, head(lines, 10u8));
}

/// The bytes of what follows the headers: the message, or nothing.
pub open spec fn message_bytes(message: Option<Seq<u8>>) -> Seq<u8> {
    match message {
        Some(m) => m,
        None => Seq::empty(),
    }
}

/// What is written from headers with clean keys and a message is read back
/// as those headers and that message: folding a value and reading its lines
/// undo each other.
pub proof fn lemma_parse_of_written(headers: Seq<(Seq<u8>, Seq<u8>)>, message: Option<Seq<u8>>)
    requires
        clean_keys(headers),
    ensures
        parse_headers(header_lines(headers) + message_part(message)) == Ok::<
            ObjectParts,
            HeaderError,
        >(ObjectParts { headers, message: message_bytes(message) }),
    decreases headers.len(),
{
    let text = header_lines(headers) + message_part(message);
    if headers.len() == 0 {
        assert(text =~= message_part(message));
        match message {
            Some(m) => {
                assert(text.skip(1) =~= m);
            },
            None => {},
        }
        assert(headers =~= Seq::empty());
    } else {
        let key = headers[0].0;
        let value = headers[0].1;
        let rest = headers.drop_first();
        let behind = header_lines(rest) + message_part(message);
        lemma_header_lines_front(headers);
        assert(clean_keys(rest)) by {
            assert forall|i: int| 0 <= i < rest.len() implies (#[trigger] rest[i]).0.len() > 0
                && !rest[i].0.contains(32u8) && !rest[i].0.contains(10u8) by {
                assert(rest[i] == headers[i + 1]);
            }
        }
        lemma_parse_of_written(rest, message);
        // what stands behind the header begins with no space
        assert(behind.len() == 0 || behind[0] != 32u8) by {
            if rest.len() > 0 {
                lemma_header_lines_front(rest);
                let k = rest[0].0;
                assert(behind[0] == k[0]);
                assert(k.contains(k[0]));
            } else {
                assert(header_lines(rest) =~= Seq::<u8>::empty());
                assert(behind =~= message_part(message));
            }
        }
        assert(text =~= header_line(key, value) + behind);
        lemma_first_header(key, value, behind);
        assert(headers =~= seq![(key, value)] + rest);
    }
}

} // verus!

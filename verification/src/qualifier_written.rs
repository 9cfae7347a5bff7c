//! The texts of qualified identifiers that are written as this crate writes
//! them, told by the text alone: reading such a text and writing what was
//! read gives the text back.

use vstd::prelude::*;
use crate::digits::{
    all_digits, ascii, decimal, digits_value, is_digit, lemma_decimal_digits, lemma_decimal_value,
    parse_u64_spec,
};
use crate::identifier::{lemma_text_no_semicolon, lemma_text_of_parse, parse_core_spec};
use crate::qualifier::{
    apply_item, apply_items, bytes_text, id_text, item_text, items_text, lemma_items_text_push,
    lines_text, parse_qualified_spec, parse_range_spec, range_text, KnownKey, QualifiedView,
};
use crate::qualifier_roundtrip::{
    all_items, lemma_apply_items_text, lemma_decimal_text, lemma_item_parts,
    lemma_items_no_semicolons, lemma_known_key, lemma_parsed_is_readable, lemma_text_is_items,
    no_semicolons, optional_list, plain_item, readable,
};
use crate::seqs::{
    has_tail, head, lemma_concat_without, lemma_first_index, lemma_one_without, lemma_split_join,
    lemma_split_none, lemma_split_of_join, lemma_tail_shorter, tail,
};

verus! {

/// The place of a key in the order in which items are written: the six
/// known keys first, in their order, and every other key behind them.
pub open spec fn rank(key: Seq<char>) -> int {
    match KnownKey::of_text(key) {
        Some(KnownKey::Origin) => 0,
        Some(KnownKey::Visit) => 1,
        Some(KnownKey::Anchor) => 2,
        Some(KnownKey::Path) => 3,
        Some(KnownKey::Lines) => 4,
        Some(KnownKey::Bytes) => 5,
        None => 6,
    }
}

/// The least place that the key behind a key at the place `r` may have: a
/// known key comes once, and the other keys come as often as they like.
pub open spec fn next_least(r: int) -> int {
    if r < 6 {
        r + 1
    } else {
        6
    }
}

/// Whether `t` is a number as it is written: decimal digits, without a
/// sign, and without a zero in front unless it is the one digit.
pub open spec fn plain_number(t: Seq<char>) -> bool {
    t.len() > 0 && all_digits(t) && (t.len() == 1 || t[0] != '0')
}

/// Whether `v` is a range as it is written: a plain number, or two with a
/// `-` between them.
pub open spec fn plain_range(v: Seq<char>) -> bool {
    if has_tail(v, '-') {
        plain_number(head(v, '-')) && plain_number(tail(v, '-'))
    } else {
        plain_number(v)
    }
}

/// Whether the items of `rest`, which `;` parts, are written as this crate
/// writes them: none is empty, their keys stand in the order in which they
/// are written, from the place `least` on, no known key comes twice, and the
/// values of `lines` and `bytes` are plain ranges.
pub open spec fn written_items(rest: Seq<char>, least: int) -> bool
    decreases rest.len(),
    via written_items_decreases
{
    let item = head(rest, ';');
    let key = head(item, '=');
    &&& item.len() > 0
    &&& rank(key) >= least
    &&& (rank(key) == 4 || rank(key) == 5 ==> plain_range(tail(item, '=')))
    &&& (has_tail(rest, ';') ==> written_items(tail(rest, ';'), next_least(rank(key))))
}

#[via_fn]
proof fn written_items_decreases(rest: Seq<char>, least: int) {
    if has_tail(rest, ';') {
        lemma_tail_shorter(rest, ';');
    }
}

/// Whether the text of a qualified identifier is written as this crate
/// writes it. This asks nothing of the core identifier, which is read in one
/// way only.
pub open spec fn written(s: Seq<char>) -> bool {
    has_tail(s, ';') ==> written_items(tail(s, ';'), 0)
}

/// Digits that do not begin with a zero stand for a number that is not
/// zero.
pub proof fn lemma_digits_positive(t: Seq<char>)
    requires
        t.len() > 0,
        all_digits(t),
        t[0] != '0',
    ensures
        digits_value(t) >= 1,
    decreases t.len(),
{
    assert(is_digit(t[0]));
    assert(is_digit(t.last()));
    if t.len() == 1 {
        assert(t.drop_last() =~= Seq::<char>::empty());
        assert(digits_value(t.drop_last()) == 0);
    } else {
        let front = t.drop_last();
        assert(all_digits(front)) by {
            assert forall|i: int| 0 <= i < front.len() implies is_digit(#[trigger] front[i]) by {
                assert(is_digit(t[i]));
            }
        }
        lemma_digits_positive(front);
    }
}

/// A plain number is the decimal text of the number it stands for.
pub proof fn lemma_plain_number(t: Seq<char>)
    requires
        plain_number(t),
    ensures
        ascii(decimal(digits_value(t))) == t,
    decreases t.len(),
{
    let n = digits_value(t);
    let last = t.last();
    assert(is_digit(last));
    let d = (last as nat - 48) as nat;
    assert(((48 + d) as u8) as char == last) by {
        vstd::utf8::char_u32_cast(last, last as u32);
    }
    if t.len() == 1 {
        assert(t.drop_last() =~= Seq::<char>::empty());
        assert(digits_value(t.drop_last()) == 0);
        assert(n == d);
        assert(ascii(decimal(n)) =~= t);
    } else {
        let front = t.drop_last();
        assert(all_digits(front)) by {
            assert forall|i: int| 0 <= i < front.len() implies is_digit(#[trigger] front[i]) by {
                assert(is_digit(t[i]));
            }
        }
        assert(front[0] == t[0]);
        lemma_digits_positive(front);
        lemma_plain_number(front);
        let m = digits_value(front);
        assert(n == m * 10 + d);
        assert(n >= 10 && n / 10 == m && n % 10 == d);
        assert(decimal(n) == decimal(m).push(crate::digits::digit_byte(d as int)));
        assert(ascii(decimal(n)) =~= ascii(decimal(m)).push(last));
        assert(t =~= front.push(last));
    }
}

/// A plain number that is read as a 64-bit number is the decimal text of
/// that number.
pub proof fn lemma_plain_number_parsed(t: Seq<char>)
    requires
        plain_number(t),
        parse_u64_spec(t) is Some,
    ensures
        ascii(decimal(parse_u64_spec(t)->Some_0 as nat)) == t,
{
    assert(is_digit(t[0]));
    lemma_plain_number(t);
}

/// A plain range that is read is the text of the range that was read.
pub proof fn lemma_plain_range(v: Seq<char>)
    requires
        plain_range(v),
        parse_range_spec(v) is Some,
    ensures
        range_text(parse_range_spec(v)->Some_0.0, parse_range_spec(v)->Some_0.1) == v,
{
    if has_tail(v, '-') {
        lemma_split_join(v, '-');
        lemma_plain_number_parsed(head(v, '-'));
        lemma_plain_number_parsed(tail(v, '-'));
    } else {
        lemma_plain_number_parsed(v);
    }
}

/// Whether a qualified identifier holds nothing yet that is written at the
/// place `least` or behind it.
pub open spec fn fits(q: QualifiedView, least: int) -> bool {
    &&& (least <= 0 ==> q.origin is None)
    &&& (least <= 1 ==> q.visit is None)
    &&& (least <= 2 ==> q.anchor is None)
    &&& (least <= 3 ==> q.path is None)
    &&& (least <= 4 ==> q.lines is None)
    &&& (least <= 5 ==> q.bytes is None && q.others.len() == 0)
}

/// What a written item makes of a qualified identifier that holds nothing
/// at its place or behind it: the item comes behind the items that are
/// there, as it stands in the text.
pub proof fn lemma_item_appends(q: QualifiedView, item: Seq<char>, least: int)
    requires
        item.len() > 0,
        apply_item(q, item) is Ok,
        rank(head(item, '=')) >= least,
        rank(head(item, '=')) == 4 || rank(head(item, '=')) == 5 ==> plain_range(tail(item, '=')),
        fits(q, least),
    ensures
        all_items(apply_item(q, item)->Ok_0) == all_items(q).push(
            (head(item, '='), tail(item, '=')),
        ),
        fits(apply_item(q, item)->Ok_0, next_least(rank(head(item, '=')))),
        apply_item(q, item)->Ok_0.core == q.core,
        item == head(item, '=') + seq!['='] + tail(item, '='),
{
    let key = head(item, '=');
    let value = tail(item, '=');
    let next = apply_item(q, item)->Ok_0;
    lemma_split_join(item, '=');
    let empty = Seq::<(Seq<char>, Seq<char>)>::empty();
    let l1 = optional_list(KnownKey::Origin.text(), q.origin);
    let l2 = optional_list(KnownKey::Visit.text(), id_text(q.visit));
    let l3 = optional_list(KnownKey::Anchor.text(), id_text(q.anchor));
    let l4 = optional_list(KnownKey::Path.text(), q.path);
    let l5 = optional_list(KnownKey::Lines.text(), lines_text(q.lines));
    let x = (key, value);
    match KnownKey::of_text(key) {
        Some(KnownKey::Origin) => {
            assert(key == KnownKey::Origin.text());
            assert(all_items(q) =~= empty);
            assert(all_items(next) =~= empty.push(x));
        },
        Some(KnownKey::Visit) => {
            assert(key == KnownKey::Visit.text());
            lemma_text_of_parse(value);
            assert(all_items(q) =~= l1);
            assert(all_items(next) =~= l1.push(x));
        },
        Some(KnownKey::Anchor) => {
            assert(key == KnownKey::Anchor.text());
            lemma_text_of_parse(value);
            assert(all_items(q) =~= l1 + l2);
            assert(all_items(next) =~= (l1 + l2).push(x));
        },
        Some(KnownKey::Path) => {
            assert(key == KnownKey::Path.text());
            assert(all_items(q) =~= l1 + l2 + l3);
            assert(all_items(next) =~= (l1 + l2 + l3).push(x));
        },
        Some(KnownKey::Lines) => {
            assert(key == KnownKey::Lines.text());
            lemma_plain_range(value);
            assert(all_items(q) =~= l1 + l2 + l3 + l4);
            assert(all_items(next) =~= (l1 + l2 + l3 + l4).push(x));
        },
        Some(KnownKey::Bytes) => {
            assert(key == KnownKey::Bytes.text());
            lemma_plain_range(value);
            assert(all_items(q) =~= l1 + l2 + l3 + l4 + l5);
            assert(all_items(next) =~= (l1 + l2 + l3 + l4 + l5).push(x));
        },
        None => {
            assert(next.others == q.others.push(x));
            assert(all_items(next) =~= all_items(q).push(x));
        },
    }
}

/// What written items make of a qualified identifier that holds nothing at
/// their places: they come behind the items that are there, as they stand
/// in the text.
pub proof fn lemma_items_append(q: QualifiedView, rest: Seq<char>, least: int)
    requires
        apply_items(q, rest) is Ok,
        written_items(rest, least),
        fits(q, least),
    ensures
        apply_items(q, rest)->Ok_0.core == q.core,
        items_text(all_items(apply_items(q, rest)->Ok_0)) == items_text(all_items(q)) + seq![';']
            + rest,
    decreases rest.len(),
{
    let item = head(rest, ';');
    let key = head(item, '=');
    let value = tail(item, '=');
    let next = apply_item(q, item)->Ok_0;
    let before = items_text(all_items(q));
    lemma_item_appends(q, item, least);
    lemma_items_text_push(all_items(q), (key, value));
    assert(item_text(key, value) =~= seq![';'] + item);
    let after = items_text(all_items(next));
    assert(after == before + (seq![';'] + item));
    if has_tail(rest, ';') {
        lemma_tail_shorter(rest, ';');
        lemma_split_join(rest, ';');
        let more = tail(rest, ';');
        lemma_items_append(next, more, next_least(rank(key)));
        assert(before + (seq![';'] + item) + seq![';'] + more =~= before + seq![';'] + (item + seq![
            ';',
        ] + more));
    } else {
        lemma_first_index(rest, ';');
        assert(item =~= rest);
        assert(before + (seq![';'] + item) =~= before + seq![';'] + rest);
    }
}

/// Reading a text that is written as this crate writes it, and writing what
/// was read, gives the text back: the text has no empty item, its keys stand
/// in the order in which they are written, no known key comes twice, and its
/// ranges are plain.
pub proof fn lemma_text_of_parse_written(s: Seq<char>)
    requires
        parse_qualified_spec(s) is Ok,
        written(s),
    ensures
        parse_qualified_spec(s)->Ok_0.text() == s,
{
    let q = parse_qualified_spec(s)->Ok_0;
    let front = head(s, ';');
    lemma_text_of_parse(front);
    let start = QualifiedView::bare(parse_core_spec(front)->Ok_0);
    let empty = Seq::<(Seq<char>, Seq<char>)>::empty();
    assert(all_items(start) =~= empty);
    assert(items_text(all_items(start)) =~= Seq::<char>::empty());
    lemma_text_is_items(q);
    if has_tail(s, ';') {
        lemma_split_join(s, ';');
        lemma_items_append(start, tail(s, ';'), 0);
        assert(q.text() =~= front + seq![';'] + tail(s, ';'));
    } else {
        lemma_first_index(s, ';');
        assert(front =~= s);
        assert(q.text() =~= s);
    }
}

/// Whether a list of items is one that is written: each key is not empty
/// and holds no `=`, the keys stand in the order in which they are written,
/// from the place `least` on, no known key comes twice, and the values of
/// `lines` and `bytes` are plain ranges.
pub open spec fn listed(items: Seq<(Seq<char>, Seq<char>)>, least: int) -> bool
    decreases items.len(),
{
    items.len() == 0 || {
        let key = items[0].0;
        &&& key.len() > 0
        &&& !key.contains('=')
        &&& rank(key) >= least
        &&& (rank(key) == 4 || rank(key) == 5 ==> plain_range(items[0].1))
        &&& listed(items.drop_first(), next_least(rank(key)))
    }
}

/// A list that is written from a place on is written from every place
/// before it on.
pub proof fn lemma_listed_from_before(items: Seq<(Seq<char>, Seq<char>)>, least: int, before: int)
    requires
        listed(items, least),
        before <= least,
    ensures
        listed(items, before),
{
}

/// The text of a list that is written, without the `;` in front of it, is
/// made of written items.
pub proof fn lemma_listed_is_written(items: Seq<(Seq<char>, Seq<char>)>, least: int)
    requires
        items.len() > 0,
        no_semicolons(items),
        listed(items, least),
    ensures
        written_items(items_text(items).skip(1), least),
    decreases items.len(),
{
    let key = items[0].0;
    let value = items[0].1;
    let item = key + seq!['='] + value;
    let rest = items.drop_first();
    let text = items_text(items);
    assert(!item.contains(';')) by {
        lemma_one_without('=', ';');
        lemma_concat_without(key, seq!['='], ';');
        lemma_concat_without(key + seq!['='], value, ';');
    }
    lemma_item_parts(key, value);
    assert(text == item_text(key, value) + items_text(rest));
    if rest.len() == 0 {
        assert(items_text(rest) =~= Seq::<char>::empty());
        assert(text.skip(1) =~= item);
        lemma_split_none(item, ';');
    } else {
        assert(no_semicolons(rest)) by {
            assert forall|i: int| 0 <= i < rest.len() implies !(#[trigger] rest[i]).0.contains(';')
                && !rest[i].1.contains(';') by {
                assert(rest[i] == items[i + 1]);
            }
        }
        lemma_listed_is_written(rest, next_least(rank(key)));
        let behind = items_text(rest);
        assert(behind[0] == ';') by {
            assert(behind == item_text(rest[0].0, rest[0].1) + items_text(rest.drop_first()));
        }
        assert(behind =~= seq![';'] + behind.skip(1));
        assert(text.skip(1) =~= item + seq![';'] + behind.skip(1));
        lemma_split_of_join(item, ';', behind.skip(1));
    }
}

/// The decimal text of a number of two digits or more does not begin with a
/// zero.
pub proof fn lemma_decimal_first(n: nat)
    requires
        n >= 10,
    ensures
        decimal(n).len() >= 2,
        decimal(n)[0] != 48u8,
    decreases n,
{
    lemma_decimal_digits(n / 10);
    if n / 10 >= 10 {
        lemma_decimal_first(n / 10);
    }
}

/// The text of a range is a plain range.
pub proof fn lemma_range_text_plain(start: u64, end: Option<u64>)
    ensures
        plain_range(range_text(start, end)),
{
    let a = ascii(decimal(start as nat));
    lemma_decimal_value(start as nat);
    lemma_decimal_text(start as nat);
    if start >= 10 {
        lemma_decimal_first(start as nat);
    }
    assert(plain_number(a));
    match end {
        Some(e) => {
            let b = ascii(decimal(e as nat));
            lemma_decimal_value(e as nat);
            if e >= 10 {
                lemma_decimal_first(e as nat);
            }
            assert(plain_number(b));
            lemma_split_of_join(a, '-', b);
        },
        None => {
            lemma_split_none(a, '-');
        },
    }
}

/// Plain items are a list that is written behind the known keys.
pub proof fn lemma_plain_items_listed(items: Seq<(Seq<char>, Seq<char>)>)
    requires
        forall|i: int| 0 <= i < items.len() ==> plain_item(#[trigger] items[i]),
    ensures
        listed(items, 6),
    decreases items.len(),
{
    if items.len() > 0 {
        assert(plain_item(items[0]));
        let rest = items.drop_first();
        assert forall|i: int| 0 <= i < rest.len() implies plain_item(#[trigger] rest[i]) by {
            assert(rest[i] == items[i + 1]);
        }
        lemma_plain_items_listed(rest);
    }
}

/// A list that is written behind a known key, with the item of that key in
/// front of it where there is one, is written from the place of that key on.
pub proof fn lemma_listed_with(
    key: KnownKey,
    value: Option<Seq<char>>,
    rest: Seq<(Seq<char>, Seq<char>)>,
)
    requires
        listed(rest, rank(key.text()) + 1),
        (key == KnownKey::Lines || key == KnownKey::Bytes) && value is Some ==> plain_range(
            value->Some_0,
        ),
    ensures
        rank(key.text()) < 6,
        listed(optional_list(key.text(), value) + rest, rank(key.text())),
{
    lemma_known_key(key);
    let r = rank(key.text());
    let all = optional_list(key.text(), value) + rest;
    match value {
        Some(v) => {
            assert(all[0] == (key.text(), v));
            assert(all.drop_first() =~= rest);
        },
        None => {
            assert(all =~= rest);
            lemma_listed_from_before(rest, r + 1, r);
        },
    }
}

/// Seven lists, one behind the other, however they are put together.
proof fn lemma_regroup(
    l1: Seq<(Seq<char>, Seq<char>)>,
    l2: Seq<(Seq<char>, Seq<char>)>,
    l3: Seq<(Seq<char>, Seq<char>)>,
    l4: Seq<(Seq<char>, Seq<char>)>,
    l5: Seq<(Seq<char>, Seq<char>)>,
    l6: Seq<(Seq<char>, Seq<char>)>,
    l7: Seq<(Seq<char>, Seq<char>)>,
)
    ensures
        l1 + l2 + l3 + l4 + l5 + l6 + l7 == l1 + (l2 + (l3 + (l4 + (l5 + (l6 + l7))))),
{
    assert(l5 + l6 + l7 =~= l5 + (l6 + l7));
    assert(l4 + l5 + l6 + l7 =~= l4 + (l5 + (l6 + l7)));
    assert(l3 + l4 + l5 + l6 + l7 =~= l3 + (l4 + (l5 + (l6 + l7))));
    assert(l2 + l3 + l4 + l5 + l6 + l7 =~= l2 + (l3 + (l4 + (l5 + (l6 + l7)))));
    assert(l1 + l2 + l3 + l4 + l5 + l6 + l7 =~= l1 + (l2 + (l3 + (l4 + (l5 + (l6 + l7))))));
}

/// The items behind the path of a readable qualified identifier, those of
/// its lines and bytes and the others, are a list that is written.
proof fn lemma_ranges_listed(q: QualifiedView)
    requires
        readable(q),
    ensures
        listed(
            optional_list(KnownKey::Lines.text(), lines_text(q.lines)) + (optional_list(
                KnownKey::Bytes.text(),
                bytes_text(q.bytes),
            ) + q.others),
            4,
        ),
{
    lemma_known_key(KnownKey::Lines);
    lemma_known_key(KnownKey::Bytes);
    if q.lines is Some {
        lemma_range_text_plain(q.lines->Some_0.start, q.lines->Some_0.end);
    }
    if q.bytes is Some {
        lemma_range_text_plain(q.bytes->Some_0.start, q.bytes->Some_0.end);
    }
    lemma_plain_items_listed(q.others);
    let l6 = optional_list(KnownKey::Bytes.text(), bytes_text(q.bytes));
    lemma_listed_with(KnownKey::Bytes, bytes_text(q.bytes), q.others);
    lemma_listed_with(KnownKey::Lines, lines_text(q.lines), l6 + q.others);
}

/// The items of a readable qualified identifier are a list that is written.
pub proof fn lemma_all_items_listed(q: QualifiedView)
    requires
        readable(q),
    ensures
        listed(all_items(q), 0),
{
    let l1 = optional_list(KnownKey::Origin.text(), q.origin);
    let l2 = optional_list(KnownKey::Visit.text(), id_text(q.visit));
    let l3 = optional_list(KnownKey::Anchor.text(), id_text(q.anchor));
    let l4 = optional_list(KnownKey::Path.text(), q.path);
    let l5 = optional_list(KnownKey::Lines.text(), lines_text(q.lines));
    let l6 = optional_list(KnownKey::Bytes.text(), bytes_text(q.bytes));
    let r5 = l5 + (l6 + q.others);
    let r4 = l4 + r5;
    let r3 = l3 + r4;
    let r2 = l2 + r3;
    let r1 = l1 + r2;
    lemma_ranges_listed(q);
    assert(listed(r4, 3)) by {
        lemma_known_key(KnownKey::Path);
        lemma_listed_with(KnownKey::Path, q.path, r5);
    }
    assert(listed(r3, 2)) by {
        lemma_known_key(KnownKey::Anchor);
        lemma_listed_with(KnownKey::Anchor, id_text(q.anchor), r4);
    }
    assert(listed(r2, 1)) by {
        lemma_known_key(KnownKey::Visit);
        lemma_listed_with(KnownKey::Visit, id_text(q.visit), r3);
    }
    assert(listed(r1, 0)) by {
        lemma_known_key(KnownKey::Origin);
        lemma_listed_with(KnownKey::Origin, q.origin, r2);
    }
    lemma_regroup(l1, l2, l3, l4, l5, l6, q.others);
}

/// The text of a readable qualified identifier is written as this crate
/// writes it.
pub proof fn lemma_text_is_written(q: QualifiedView)
    requires
        readable(q),
    ensures
        written(q.text()),
{
    let text = q.text();
    let front = q.core.text();
    let items = all_items(q);
    lemma_text_is_items(q);
    lemma_text_no_semicolon(q.core);
    if items.len() == 0 {
        assert(items_text(items) =~= Seq::<char>::empty());
        assert(text =~= front);
        lemma_split_none(front, ';');
    } else {
        lemma_items_no_semicolons(q);
        lemma_all_items_listed(q);
        lemma_apply_items_text(QualifiedView::bare(q.core), items);
        lemma_listed_is_written(items, 0);
        let behind = items_text(items);
        assert(behind =~= seq![';'] + behind.skip(1));
        assert(text =~= front + seq![';'] + behind.skip(1));
        lemma_split_of_join(front, ';', behind.skip(1));
    }
}

/// Of the texts that are read, those that are written back as they stand
/// are those that are written as this crate writes them, and no others: one
/// with an empty item, with a known key twice or out of its place, or with
/// a number that is not plain is read, and written otherwise.
pub proof fn lemma_roundtrip_exactly_written(s: Seq<char>)
    requires
        parse_qualified_spec(s) is Ok,
    ensures
        parse_qualified_spec(s)->Ok_0.text() == s <==> written(s),
{
    if written(s) {
        lemma_text_of_parse_written(s);
    }
    if parse_qualified_spec(s)->Ok_0.text() == s {
        lemma_parsed_is_readable(s);
        lemma_text_is_written(parse_qualified_spec(s)->Ok_0);
    }
}

} // verus!

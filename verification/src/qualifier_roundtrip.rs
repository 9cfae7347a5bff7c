//! Writing a qualified identifier and reading it back.

use vstd::prelude::*;
use crate::digits::{ascii, decimal, lemma_decimal_digits, lemma_parse_decimal};
use crate::error::SwhidErrorView;
use crate::identifier::{
    lemma_parse_of_text, lemma_text_no_semicolon, lemma_text_of_parse, parse_core_spec, SwhidView,
};
use crate::qualifier::{
    apply_item, apply_items, bytes_text, id_text, item_text, items_text, lines_text,
    optional_item, parse_qualified_spec, parse_range_spec, range_text, ByteRange, KnownKey,
    LineRange, QualifiedView,
};
use crate::seqs::{
    first_index, has_tail, head, lemma_concat_without, lemma_first_index, lemma_tail_shorter, lemma_one_without, lemma_split_join, lemma_split_none,
    lemma_split_of_join, tail,
};

verus! {

/// Whether an item with a key that has no meaning can be written and read
/// back: its key is not empty, is none of the known keys, and holds no `=`
/// and no `;`, and its value holds no `;`.
pub open spec fn plain_item(item: (Seq<char>, Seq<char>)) -> bool {
    item.0.len() > 0 && !item.0.contains('=') && !item.0.contains(';') && KnownKey::of_text(item.0)
        is None && !item.1.contains(';')
}

/// Whether a range has no end before its start.
pub open spec fn ordered(start: u64, end: Option<u64>) -> bool {
    end matches Some(e) ==> start <= e
}

/// Whether a qualified identifier is one that reading gives: its digests
/// have twenty bytes, its origin and its path hold no `;`, its ranges have
/// no end before their start, and its other items are plain.
pub open spec fn readable(q: QualifiedView) -> bool {
    &&& q.core.digest.len() == 20
    &&& (q.visit matches Some(v) ==> v.digest.len() == 20)
    &&& (q.anchor matches Some(a) ==> a.digest.len() == 20)
    &&& (q.origin matches Some(o) ==> !o.contains(';'))
    &&& (q.path matches Some(p) ==> !p.contains(';'))
    &&& (q.lines matches Some(l) ==> ordered(l.start, l.end))
    &&& (q.bytes matches Some(b) ==> ordered(b.start, b.end))
    &&& forall|i: int| 0 <= i < q.others.len() ==> plain_item(#[trigger] q.others[i])
}

/// The text of a known key holds no `=` and no `;`, is not empty, and is
/// told from the others.
pub proof fn lemma_known_key(key: KnownKey)
    ensures
        KnownKey::of_text(key.text()) == Some(key),
        key.text().len() > 0,
        !key.text().contains('='),
        !key.text().contains(';'),
{
    let o = KnownKey::Origin.text();
    let v = KnownKey::Visit.text();
    let a = KnownKey::Anchor.text();
    let p = KnownKey::Path.text();
    let l = KnownKey::Lines.text();
    let b = KnownKey::Bytes.text();
    assert(o[0] == 'o' && v[0] == 'v' && a[0] == 'a' && p[0] == 'p' && l[0] == 'l' && b[0] == 'b');
    let t = key.text();
    if t.contains('=') {
        let i = choose|i: int| 0 <= i < t.len() && t[i] == '=';
        assert(t[i] == '=');
    }
    if t.contains(';') {
        let i = choose|i: int| 0 <= i < t.len() && t[i] == ';';
        assert(t[i] == ';');
    }
}

/// The decimal text of a number holds no `-`, no `;` and no `+`.
pub proof fn lemma_decimal_text(n: nat)
    ensures
        !ascii(decimal(n)).contains('-'),
        !ascii(decimal(n)).contains(';'),
        !ascii(decimal(n)).contains('+'),
        ascii(decimal(n)).len() > 0,
{
    let t = ascii(decimal(n));
    lemma_decimal_digits(n);
    assert forall|i: int| 0 <= i < t.len() implies '0' <= #[trigger] t[i] <= '9' by {
        assert(48 <= decimal(n)[i] <= 57);
    }
    if t.contains('-') {
        let i = choose|i: int| 0 <= i < t.len() && t[i] == '-';
        assert('0' <= t[i]);
    }
    if t.contains(';') {
        let i = choose|i: int| 0 <= i < t.len() && t[i] == ';';
        assert(t[i] <= '9');
    }
    if t.contains('+') {
        let i = choose|i: int| 0 <= i < t.len() && t[i] == '+';
        assert('0' <= t[i]);
    }
}

/// The text of a range with no end before its start reads back as the
/// range, and holds no `;`.
pub proof fn lemma_range_roundtrip(start: u64, end: Option<u64>)
    requires
        ordered(start, end),
    ensures
        parse_range_spec(range_text(start, end)) == Some((start, end)),
        !range_text(start, end).contains(';'),
{
    let a = ascii(decimal(start as nat));
    lemma_decimal_text(start as nat);
    lemma_parse_decimal(start);
    match end {
        Some(e) => {
            let b = ascii(decimal(e as nat));
            lemma_decimal_text(e as nat);
            lemma_parse_decimal(e);
            lemma_split_of_join(a, '-', b);
            lemma_one_without('-', ';');
            lemma_concat_without(a, seq!['-'], ';');
            lemma_concat_without(a + seq!['-'], b, ';');
        },
        None => {
            lemma_split_none(a, '-');
        },
    }
}

/// What an item `key=value` makes of a qualified identifier, where the key
/// is not empty and holds no `=`: the key and the value are told apart at
/// the first `=`.
pub proof fn lemma_item_parts(key: Seq<char>, value: Seq<char>)
    requires
        key.len() > 0,
        !key.contains('='),
    ensures
        (key + seq!['='] + value).len() > 0,
        has_tail(key + seq!['='] + value, '='),
        head(key + seq!['='] + value, '=') == key,
        tail(key + seq!['='] + value, '=') == value,
{
    lemma_split_of_join(key, '=', value);
}

/// What a list of items makes of a qualified identifier, one after the
/// other.
pub open spec fn apply_list(q: QualifiedView, items: Seq<(Seq<char>, Seq<char>)>) -> Result<
    QualifiedView,
    SwhidErrorView,
>
    decreases items.len(),
{
    if items.len() == 0 {
        Ok(q)
    } else {
        match apply_item(q, items[0].0 + seq!['='] + items[0].1) {
            Err(e) => Err(e),
            Ok(next) => apply_list(next, items.drop_first()),
        }
    }
}

/// Whether no item of the list holds a `;`.
pub open spec fn no_semicolons(items: Seq<(Seq<char>, Seq<char>)>) -> bool {
    forall|i: int|
        0 <= i < items.len() ==> !(#[trigger] items[i]).0.contains(';') && !items[i].1.contains(';')
}

/// The text of a list of items that is not empty begins with `;`, and what
/// stands behind that is read as the items of the list.
pub proof fn lemma_apply_items_text(q: QualifiedView, items: Seq<(Seq<char>, Seq<char>)>)
    requires
        items.len() > 0,
        no_semicolons(items),
    ensures
        items_text(items).len() > 0,
        items_text(items)[0] == ';',
        apply_items(q, items_text(items).skip(1)) == apply_list(q, items),
    decreases items.len(),
{
    let key = items[0].0;
    let value = items[0].1;
    let item = key + seq!['='] + value;
    let rest = items.drop_first();
    let text = items_text(items);
    assert(!item.contains(';')) by {
        lemma_one_without('=', ';');
        lemma_concat_without(key, seq!['='], ';');
        lemma_concat_without(key + seq!['='], value, ';');
    }
    assert(text == item_text(key, value) + items_text(rest));
    assert(text[0] == ';');
    if rest.len() == 0 {
        assert(items_text(rest) =~= Seq::<char>::empty());
        assert(text.skip(1) =~= item);
        lemma_split_none(item, ';');
        match apply_item(q, item) {
            Ok(next) => {
                assert(apply_list(next, rest) == Ok::<QualifiedView, SwhidErrorView>(next));
            },
            Err(_) => {},
        }
    } else {
        assert(no_semicolons(rest)) by {
            assert forall|i: int| 0 <= i < rest.len() implies !(#[trigger] rest[i]).0.contains(';')
                && !rest[i].1.contains(';') by {
                assert(rest[i] == items[i + 1]);
            }
        }
        match apply_item(q, item) {
            Ok(next) => {
                lemma_apply_items_text(next, rest);
            },
            Err(_) => {
                lemma_apply_items_text(q, rest);
            },
        }
        let behind = items_text(rest);
        assert(text.skip(1) =~= item + seq![';'] + behind.skip(1)) by {
            assert(behind =~= seq![';'] + behind.skip(1));
        }
        lemma_split_of_join(item, ';', behind.skip(1));
    }
}

/// Items read one after the other: first those of one list, then those of
/// the list behind it.
pub proof fn lemma_apply_list_concat(
    q: QualifiedView,
    a: Seq<(Seq<char>, Seq<char>)>,
    b: Seq<(Seq<char>, Seq<char>)>,
)
    ensures
        apply_list(q, a + b) == match apply_list(q, a) {
            Err(e) => Err(e),
            Ok(next) => apply_list(next, b),
        },
    decreases a.len(),
{
    if a.len() == 0 {
        assert(a + b =~= b);
    } else {
        assert((a + b)[0] == a[0]);
        assert((a + b).drop_first() =~= a.drop_first() + b);
        match apply_item(q, a[0].0 + seq!['='] + a[0].1) {
            Ok(next) => {
                lemma_apply_list_concat(next, a.drop_first(), b);
            },
            Err(_) => {},
        }
    }
}

/// The text of two lists of items, one behind the other.
pub proof fn lemma_items_text_concat(a: Seq<(Seq<char>, Seq<char>)>, b: Seq<(Seq<char>, Seq<char>)>)
    ensures
        items_text(a + b) == items_text(a) + items_text(b),
    decreases a.len(),
{
    if a.len() == 0 {
        assert(a + b =~= b);
        assert(items_text(a) =~= Seq::<char>::empty());
        assert(items_text(a + b) =~= items_text(a) + items_text(b));
    } else {
        assert((a + b)[0] == a[0]);
        assert((a + b).drop_first() =~= a.drop_first() + b);
        lemma_items_text_concat(a.drop_first(), b);
        assert(items_text(a + b) =~= items_text(a) + items_text(b));
    }
}

/// The list of one item where a value is there, and the empty list where it
/// is not.
pub open spec fn optional_list(key: Seq<char>, value: Option<Seq<char>>) -> Seq<
    (Seq<char>, Seq<char>),
> {
    match value {
        Some(v) => seq![(key, v)],
        None => Seq::empty(),
    }
}

/// The text of the list of an item that may be absent.
pub proof fn lemma_optional_list_text(key: Seq<char>, value: Option<Seq<char>>)
    ensures
        items_text(optional_list(key, value)) == optional_item(key, value),
{
    match value {
        Some(v) => {
            let l = seq![(key, v)];
            assert(l.drop_first() =~= Seq::empty());
            assert(items_text(l.drop_first()) =~= Seq::<char>::empty());
            assert(items_text(l) =~= item_text(key, v));
        },
        None => {},
    }
}

/// The items of a qualified identifier, in the order in which they are
/// written.
pub open spec fn all_items(q: QualifiedView) -> Seq<(Seq<char>, Seq<char>)> {
    optional_list(KnownKey::Origin.text(), q.origin) + optional_list(
        KnownKey::Visit.text(),
        id_text(q.visit),
    ) + optional_list(KnownKey::Anchor.text(), id_text(q.anchor)) + optional_list(
        KnownKey::Path.text(),
        q.path,
    ) + optional_list(KnownKey::Lines.text(), lines_text(q.lines)) + optional_list(
        KnownKey::Bytes.text(),
        bytes_text(q.bytes),
    ) + q.others
}

/// Three texts, one behind the other, however they are put together.
proof fn lemma_join_three(a: Seq<char>, b: Seq<char>, c: Seq<char>)
    ensures
        a + (b + c) == (a + b) + c,
{
    assert(a + (b + c) =~= (a + b) + c);
}

/// The text of a qualified identifier is that of its core identifier and,
/// behind it, that of its items.
pub proof fn lemma_text_is_items(q: QualifiedView)
    ensures
        q.text() == q.core.text() + items_text(all_items(q)),
{
    let l1 = optional_list(KnownKey::Origin.text(), q.origin);
    let l2 = optional_list(KnownKey::Visit.text(), id_text(q.visit));
    let l3 = optional_list(KnownKey::Anchor.text(), id_text(q.anchor));
    let l4 = optional_list(KnownKey::Path.text(), q.path);
    let l5 = optional_list(KnownKey::Lines.text(), lines_text(q.lines));
    let l6 = optional_list(KnownKey::Bytes.text(), bytes_text(q.bytes));
    let t1 = optional_item(KnownKey::Origin.text(), q.origin);
    let t2 = optional_item(KnownKey::Visit.text(), id_text(q.visit));
    let t3 = optional_item(KnownKey::Anchor.text(), id_text(q.anchor));
    let t4 = optional_item(KnownKey::Path.text(), q.path);
    let t5 = optional_item(KnownKey::Lines.text(), lines_text(q.lines));
    let t6 = optional_item(KnownKey::Bytes.text(), bytes_text(q.bytes));
    let t7 = items_text(q.others);
    lemma_optional_list_text(KnownKey::Origin.text(), q.origin);
    lemma_optional_list_text(KnownKey::Visit.text(), id_text(q.visit));
    lemma_optional_list_text(KnownKey::Anchor.text(), id_text(q.anchor));
    lemma_optional_list_text(KnownKey::Path.text(), q.path);
    lemma_optional_list_text(KnownKey::Lines.text(), lines_text(q.lines));
    lemma_optional_list_text(KnownKey::Bytes.text(), bytes_text(q.bytes));
    let joined2 = t1 + t2;
    let joined3 = joined2 + t3;
    let joined4 = joined3 + t4;
    let joined5 = joined4 + t5;
    let joined6 = joined5 + t6;
    let joined7 = joined6 + t7;
    assert(items_text(l1 + l2) == joined2) by {
        lemma_items_text_concat(l1, l2);
    }
    assert(items_text(l1 + l2 + l3) == joined3) by {
        lemma_items_text_concat(l1 + l2, l3);
    }
    assert(items_text(l1 + l2 + l3 + l4) == joined4) by {
        lemma_items_text_concat(l1 + l2 + l3, l4);
    }
    assert(items_text(l1 + l2 + l3 + l4 + l5) == joined5) by {
        lemma_items_text_concat(l1 + l2 + l3 + l4, l5);
    }
    assert(items_text(l1 + l2 + l3 + l4 + l5 + l6) == joined6) by {
        lemma_items_text_concat(l1 + l2 + l3 + l4 + l5, l6);
    }
    assert(items_text(all_items(q)) == joined7) by {
        lemma_items_text_concat(l1 + l2 + l3 + l4 + l5 + l6, q.others);
    }
    let c = q.core.text();
    lemma_join_three(c, t1, t2);
    lemma_join_three(c, joined2, t3);
    lemma_join_three(c, joined3, t4);
    lemma_join_three(c, joined4, t5);
    lemma_join_three(c, joined5, t6);
    lemma_join_three(c, joined6, t7);
}

/// Plain items are kept as they stand, behind those that were kept before.
pub proof fn lemma_apply_plain_items(q: QualifiedView, items: Seq<(Seq<char>, Seq<char>)>)
    requires
        forall|i: int| 0 <= i < items.len() ==> plain_item(#[trigger] items[i]),
    ensures
        apply_list(q, items) == Ok::<QualifiedView, SwhidErrorView>(
            QualifiedView { others: q.others + items, ..q },
        ),
    decreases items.len(),
{
    if items.len() == 0 {
        assert(q.others + items =~= q.others);
    } else {
        let key = items[0].0;
        let value = items[0].1;
        assert(plain_item(items[0]));
        lemma_item_parts(key, value);
        let next = QualifiedView { others: q.others.push((key, value)), ..q };
        assert(apply_item(q, key + seq!['='] + value) == Ok::<QualifiedView, SwhidErrorView>(next));
        let rest = items.drop_first();
        assert forall|i: int| 0 <= i < rest.len() implies plain_item(#[trigger] rest[i]) by {
            assert(rest[i] == items[i + 1]);
        }
        lemma_apply_plain_items(next, rest);
        assert(next.others + rest =~= q.others + items);
    }
}

/// What the list of one item makes of a qualified identifier is what the
/// item makes of it.
pub proof fn lemma_apply_one(q: QualifiedView, key: Seq<char>, value: Seq<char>)
    ensures
        apply_list(q, seq![(key, value)]) == apply_item(q, key + seq!['='] + value),
{
    let l = seq![(key, value)];
    assert(l.drop_first() =~= Seq::empty());
    match apply_item(q, key + seq!['='] + value) {
        Ok(next) => {
            assert(apply_list(next, l.drop_first()) == Ok::<QualifiedView, SwhidErrorView>(next));
        },
        Err(_) => {},
    }
}

/// Reading the item of an origin sets the origin.
pub proof fn lemma_apply_origin(q: QualifiedView, origin: Option<Seq<char>>)
    requires
        q.origin is None,
    ensures
        apply_list(q, optional_list(KnownKey::Origin.text(), origin)) == Ok::<
            QualifiedView,
            SwhidErrorView,
        >(QualifiedView { origin, ..q }),
{
    match origin {
        Some(o) => {
            lemma_known_key(KnownKey::Origin);
            lemma_item_parts(KnownKey::Origin.text(), o);
            lemma_apply_one(q, KnownKey::Origin.text(), o);
        },
        None => {},
    }
}

/// Reading the item of a path sets the path.
pub proof fn lemma_apply_path(q: QualifiedView, path: Option<Seq<char>>)
    requires
        q.path is None,
    ensures
        apply_list(q, optional_list(KnownKey::Path.text(), path)) == Ok::<
            QualifiedView,
            SwhidErrorView,
        >(QualifiedView { path, ..q }),
{
    match path {
        Some(p) => {
            lemma_known_key(KnownKey::Path);
            lemma_item_parts(KnownKey::Path.text(), p);
            lemma_apply_one(q, KnownKey::Path.text(), p);
        },
        None => {},
    }
}

/// Reading the item of a visit sets the visit.
pub proof fn lemma_apply_visit(q: QualifiedView, visit: Option<SwhidView>)
    requires
        q.visit is None,
        visit matches Some(v) ==> v.digest.len() == 20,
    ensures
        apply_list(q, optional_list(KnownKey::Visit.text(), id_text(visit))) == Ok::<
            QualifiedView,
            SwhidErrorView,
        >(QualifiedView { visit, ..q }),
{
    match visit {
        Some(v) => {
            lemma_known_key(KnownKey::Visit);
            lemma_item_parts(KnownKey::Visit.text(), v.text());
            lemma_apply_one(q, KnownKey::Visit.text(), v.text());
            lemma_parse_of_text(v);
        },
        None => {},
    }
}

/// Reading the item of an anchor sets the anchor.
pub proof fn lemma_apply_anchor(q: QualifiedView, anchor: Option<SwhidView>)
    requires
        q.anchor is None,
        anchor matches Some(a) ==> a.digest.len() == 20,
    ensures
        apply_list(q, optional_list(KnownKey::Anchor.text(), id_text(anchor))) == Ok::<
            QualifiedView,
            SwhidErrorView,
        >(QualifiedView { anchor, ..q }),
{
    match anchor {
        Some(a) => {
            lemma_known_key(KnownKey::Anchor);
            lemma_item_parts(KnownKey::Anchor.text(), a.text());
            lemma_apply_one(q, KnownKey::Anchor.text(), a.text());
            lemma_parse_of_text(a);
        },
        None => {},
    }
}

/// Reading the item of lines sets the lines.
pub proof fn lemma_apply_lines(q: QualifiedView, lines: Option<LineRange>)
    requires
        q.lines is None,
        lines matches Some(l) ==> ordered(l.start, l.end),
    ensures
        apply_list(q, optional_list(KnownKey::Lines.text(), lines_text(lines))) == Ok::<
            QualifiedView,
            SwhidErrorView,
        >(QualifiedView { lines, ..q }),
{
    match lines {
        Some(l) => {
            lemma_known_key(KnownKey::Lines);
            lemma_item_parts(KnownKey::Lines.text(), range_text(l.start, l.end));
            lemma_apply_one(q, KnownKey::Lines.text(), range_text(l.start, l.end));
            lemma_range_roundtrip(l.start, l.end);
        },
        None => {},
    }
}

/// Reading the item of bytes sets the bytes.
pub proof fn lemma_apply_bytes(q: QualifiedView, bytes: Option<ByteRange>)
    requires
        q.bytes is None,
        bytes matches Some(b) ==> ordered(b.start, b.end),
    ensures
        apply_list(q, optional_list(KnownKey::Bytes.text(), bytes_text(bytes))) == Ok::<
            QualifiedView,
            SwhidErrorView,
        >(QualifiedView { bytes, ..q }),
{
    match bytes {
        Some(b) => {
            lemma_known_key(KnownKey::Bytes);
            lemma_item_parts(KnownKey::Bytes.text(), range_text(b.start, b.end));
            lemma_apply_one(q, KnownKey::Bytes.text(), range_text(b.start, b.end));
            lemma_range_roundtrip(b.start, b.end);
        },
        None => {},
    }
}

/// Reading the items of a readable qualified identifier, in the order in
/// which they are written, gives it back.
pub proof fn lemma_apply_all_items(q: QualifiedView)
    requires
        readable(q),
    ensures
        apply_list(QualifiedView::bare(q.core), all_items(q)) == Ok::<
            QualifiedView,
            SwhidErrorView,
        >(q),
{
    let l1 = optional_list(KnownKey::Origin.text(), q.origin);
    let l2 = optional_list(KnownKey::Visit.text(), id_text(q.visit));
    let l3 = optional_list(KnownKey::Anchor.text(), id_text(q.anchor));
    let l4 = optional_list(KnownKey::Path.text(), q.path);
    let l5 = optional_list(KnownKey::Lines.text(), lines_text(q.lines));
    let l6 = optional_list(KnownKey::Bytes.text(), bytes_text(q.bytes));
    let a0 = QualifiedView::bare(q.core);
    let a1 = QualifiedView { origin: q.origin, ..a0 };
    let a2 = QualifiedView { visit: q.visit, ..a1 };
    let a3 = QualifiedView { anchor: q.anchor, ..a2 };
    let a4 = QualifiedView { path: q.path, ..a3 };
    let a5 = QualifiedView { lines: q.lines, ..a4 };
    let a6 = QualifiedView { bytes: q.bytes, ..a5 };
    lemma_apply_origin(a0, q.origin);
    lemma_apply_visit(a1, q.visit);
    lemma_apply_anchor(a2, q.anchor);
    lemma_apply_path(a3, q.path);
    lemma_apply_lines(a4, q.lines);
    lemma_apply_bytes(a5, q.bytes);
    lemma_apply_plain_items(a6, q.others);
    assert(a6.others + q.others =~= q.others);
    assert(q == (QualifiedView { others: a6.others + q.others, ..a6 }));
    lemma_apply_list_concat(a0, l1, l2);
    lemma_apply_list_concat(a0, l1 + l2, l3);
    lemma_apply_list_concat(a0, l1 + l2 + l3, l4);
    lemma_apply_list_concat(a0, l1 + l2 + l3 + l4, l5);
    lemma_apply_list_concat(a0, l1 + l2 + l3 + l4 + l5, l6);
    lemma_apply_list_concat(a0, l1 + l2 + l3 + l4 + l5 + l6, q.others);
}

/// No item of a readable qualified identifier holds a `;`.
pub proof fn lemma_items_no_semicolons(q: QualifiedView)
    requires
        readable(q),
    ensures
        no_semicolons(all_items(q)),
{
    let l1 = optional_list(KnownKey::Origin.text(), q.origin);
    let l2 = optional_list(KnownKey::Visit.text(), id_text(q.visit));
    let l3 = optional_list(KnownKey::Anchor.text(), id_text(q.anchor));
    let l4 = optional_list(KnownKey::Path.text(), q.path);
    let l5 = optional_list(KnownKey::Lines.text(), lines_text(q.lines));
    let l6 = optional_list(KnownKey::Bytes.text(), bytes_text(q.bytes));
    lemma_known_key(KnownKey::Origin);
    lemma_known_key(KnownKey::Visit);
    lemma_known_key(KnownKey::Anchor);
    lemma_known_key(KnownKey::Path);
    lemma_known_key(KnownKey::Lines);
    lemma_known_key(KnownKey::Bytes);
    if q.visit is Some {
        lemma_text_no_semicolon(q.visit->Some_0);
    }
    if q.anchor is Some {
        lemma_text_no_semicolon(q.anchor->Some_0);
    }
    if q.lines is Some {
        lemma_range_roundtrip(q.lines->Some_0.start, q.lines->Some_0.end);
    }
    if q.bytes is Some {
        lemma_range_roundtrip(q.bytes->Some_0.start, q.bytes->Some_0.end);
    }
    assert(no_semicolons(l1));
    assert(no_semicolons(l2));
    assert(no_semicolons(l3));
    assert(no_semicolons(l4));
    assert(no_semicolons(l5));
    assert(no_semicolons(l6));
    assert(no_semicolons(q.others)) by {
        assert forall|i: int| 0 <= i < q.others.len() implies !(#[trigger] q.others[i]).0.contains(
            ';',
        ) && !q.others[i].1.contains(';') by {
            assert(plain_item(q.others[i]));
        }
    }
    lemma_no_semicolons_concat(l1, l2);
    lemma_no_semicolons_concat(l1 + l2, l3);
    lemma_no_semicolons_concat(l1 + l2 + l3, l4);
    lemma_no_semicolons_concat(l1 + l2 + l3 + l4, l5);
    lemma_no_semicolons_concat(l1 + l2 + l3 + l4 + l5, l6);
    lemma_no_semicolons_concat(l1 + l2 + l3 + l4 + l5 + l6, q.others);
}

/// Two lists of items without `;`, one behind the other, hold no `;`.
pub proof fn lemma_no_semicolons_concat(
    a: Seq<(Seq<char>, Seq<char>)>,
    b: Seq<(Seq<char>, Seq<char>)>,
)
    requires
        no_semicolons(a),
        no_semicolons(b),
    ensures
        no_semicolons(a + b),
{
    assert forall|i: int| 0 <= i < (a + b).len() implies !(#[trigger] (a + b)[i]).0.contains(';')
        && !(a + b)[i].1.contains(';') by {
        if i < a.len() {
            assert((a + b)[i] == a[i]);
        } else {
            assert((a + b)[i] == b[i - a.len()]);
        }
    }
}

/// A qualified identifier without items is its core identifier and nothing
/// else.
pub proof fn lemma_no_items(q: QualifiedView)
    requires
        all_items(q).len() == 0,
    ensures
        q == QualifiedView::bare(q.core),
{
    assert(q.others =~= Seq::empty());
}

/// Writing a readable qualified identifier and reading the text gives the
/// identifier back: so the text of what was read from such a text is that
/// text again.
pub proof fn lemma_parse_of_text_qualified(q: QualifiedView)
    requires
        readable(q),
    ensures
        parse_qualified_spec(q.text()) == Ok::<QualifiedView, SwhidErrorView>(q),
{
    let text = q.text();
    let front = q.core.text();
    let items = all_items(q);
    lemma_text_is_items(q);
    lemma_text_no_semicolon(q.core);
    lemma_parse_of_text(q.core);
    if items.len() == 0 {
        assert(items_text(items) =~= Seq::<char>::empty());
        assert(text =~= front);
        lemma_split_none(front, ';');
        lemma_no_items(q);
    } else {
        lemma_items_no_semicolons(q);
        lemma_apply_items_text(QualifiedView::bare(q.core), items);
        lemma_apply_all_items(q);
        let behind = items_text(items);
        assert(behind =~= seq![';'] + behind.skip(1));
        assert(text =~= front + seq![';'] + behind.skip(1));
        lemma_split_of_join(front, ';', behind.skip(1));
    }
}

/// The head and the tail of a text without `x` hold no `x`, whatever they
/// are split at.
pub proof fn lemma_parts_without(s: Seq<char>, sep: char, x: char)
    requires
        !s.contains(x),
    ensures
        !head(s, sep).contains(x),
        has_tail(s, sep) ==> !tail(s, sep).contains(x),
{
    lemma_first_index(s, sep);
    let h = head(s, sep);
    if h.contains(x) {
        let i = choose|i: int| 0 <= i < h.len() && h[i] == x;
        assert(s[i] == x);
    }
    if has_tail(s, sep) {
        let t = tail(s, sep);
        if t.contains(x) {
            let i = choose|i: int| 0 <= i < t.len() && t[i] == x;
            assert(s[first_index(s, sep) + 1 + i] == x);
        }
    }
}

/// What an item without `;` makes of a readable qualified identifier is
/// readable.
pub proof fn lemma_apply_item_readable(q: QualifiedView, item: Seq<char>)
    requires
        readable(q),
        !item.contains(';'),
        apply_item(q, item) is Ok,
    ensures
        readable(apply_item(q, item)->Ok_0),
{
    let next = apply_item(q, item)->Ok_0;
    if item.len() > 0 {
        let key = head(item, '=');
        let value = tail(item, '=');
        lemma_parts_without(item, '=', ';');
        lemma_split_join(item, '=');
        match KnownKey::of_text(key) {
            Some(KnownKey::Visit) => {
                lemma_text_of_parse(value);
            },
            Some(KnownKey::Anchor) => {
                lemma_text_of_parse(value);
            },
            Some(_) => {},
            None => {
                assert forall|i: int| 0 <= i < next.others.len() implies plain_item(
                    #[trigger] next.others[i],
                ) by {
                    if i < q.others.len() {
                        assert(next.others[i] == q.others[i]);
                    }
                }
            },
        }
    }
}

/// What items make of a readable qualified identifier is readable.
pub proof fn lemma_apply_items_readable(q: QualifiedView, rest: Seq<char>)
    requires
        readable(q),
        apply_items(q, rest) is Ok,
    ensures
        readable(apply_items(q, rest)->Ok_0),
    decreases rest.len(),
{
    let item = head(rest, ';');
    lemma_first_index(rest, ';');
    assert(!item.contains(';')) by {
        if item.contains(';') {
            let i = choose|i: int| 0 <= i < item.len() && item[i] == ';';
            assert(rest[i] == ';');
        }
    }
    lemma_apply_item_readable(q, item);
    if has_tail(rest, ';') {
        lemma_tail_shorter(rest, ';');
        lemma_apply_items_readable(apply_item(q, item)->Ok_0, tail(rest, ';'));
    }
}

/// What is read from a text is readable: the qualified identifiers that can
/// be written and read back are all that reading gives.
pub proof fn lemma_parsed_is_readable(s: Seq<char>)
    requires
        parse_qualified_spec(s) is Ok,
    ensures
        readable(parse_qualified_spec(s)->Ok_0),
{
    let front = head(s, ';');
    lemma_text_of_parse(front);
    let start = QualifiedView::bare(parse_core_spec(front)->Ok_0);
    assert(readable(start));
    if has_tail(s, ';') {
        lemma_apply_items_readable(start, tail(s, ';'));
    }
}

/// Reading a text and writing what was read gives the text back, where the
/// text is one that this crate writes: the text of a readable qualified
/// identifier.
pub proof fn lemma_text_roundtrip(s: Seq<char>, q: QualifiedView)
    requires
        readable(q),
        s == q.text(),
    ensures
        parse_qualified_spec(s) is Ok,
        parse_qualified_spec(s)->Ok_0.text() == s,
{
    lemma_parse_of_text_qualified(q);
}

} // verus!

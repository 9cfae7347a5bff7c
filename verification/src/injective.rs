//! A manifest tells the entries of its directory: no two directories have
//! the same manifest.

use vstd::prelude::*;
use crate::digits::{lemma_octal_digits, lemma_octal_value, octal};
use crate::directory::{manifest, EntryView, EXECUTABLE_FILE_MODE, FILE_MODE};
use crate::hash::{lemma_object_bytes_injective, object_bytes, tree_label};
use crate::seqs::{head, lemma_split_of_join, tail};

verus! {

/// Whether every entry has a name without NUL byte and a digest of twenty
/// bytes.
pub open spec fn decodable(s: Seq<EntryView>) -> bool {
    forall|i: int| 0 <= i < s.len() ==> !(#[trigger] s[i]).name.contains(0u8) && s[i].id.len() == 20
}

/// The manifest of entries, the first entry first.
pub proof fn lemma_manifest_front(s: Seq<EntryView>)
    requires
        s.len() > 0,
    ensures
        manifest(s) == s[0].manifest() + manifest(s.drop_first()),
    decreases s.len(),
{
    if s.len() == 1 {
        assert(s.drop_last() =~= Seq::empty());
        assert(s.drop_first() =~= Seq::empty());
        assert(manifest(s) =~= s[0].manifest() + manifest(s.drop_first()));
    } else {
        let front = s.drop_last();
        lemma_manifest_front(front);
        assert(front[0] == s[0]);
        assert(front.drop_first() =~= s.drop_first().drop_last());
        assert(s.drop_first().last() == s.last());
        assert(manifest(s) =~= s[0].manifest() + manifest(s.drop_first()));
    }
}

/// The bytes of an entry tell the entry, whatever stands behind them.
pub proof fn lemma_entry_decodes(a: EntryView, ra: Seq<u8>, b: EntryView, rb: Seq<u8>)
    requires
        !a.name.contains(0u8),
        !b.name.contains(0u8),
        a.id.len() == 20,
        b.id.len() == 20,
        a.manifest() + ra == b.manifest() + rb,
    ensures
        a == b,
        ra == rb,
{
    let oa = octal(a.mode as nat);
    let ob = octal(b.mode as nat);
    let na = a.name + seq![0u8] + (a.id + ra);
    let nb = b.name + seq![0u8] + (b.id + rb);
    let sa = oa + seq![32u8] + na;
    let sb = ob + seq![32u8] + nb;
    assert(sa =~= a.manifest() + ra);
    assert(sb =~= b.manifest() + rb);
    lemma_octal_digits(a.mode as nat);
    lemma_octal_digits(b.mode as nat);
    assert(!oa.contains(32u8)) by {
        if oa.contains(32u8) {
            let i = choose|i: int| 0 <= i < oa.len() && oa[i] == 32u8;
            assert(48 <= oa[i]);
        }
    }
    assert(!ob.contains(32u8)) by {
        if ob.contains(32u8) {
            let i = choose|i: int| 0 <= i < ob.len() && ob[i] == 32u8;
            assert(48 <= ob[i]);
        }
    }
    lemma_split_of_join(oa, 32u8, na);
    lemma_split_of_join(ob, 32u8, nb);
    assert(oa == head(sa, 32u8) && ob == head(sb, 32u8));
    assert(na == tail(sa, 32u8) && nb == tail(sb, 32u8));
    lemma_octal_value(a.mode as nat);
    lemma_octal_value(b.mode as nat);
    assert(a.mode == b.mode);
    lemma_split_of_join(a.name, 0u8, a.id + ra);
    lemma_split_of_join(b.name, 0u8, b.id + rb);
    assert(a.name == head(na, 0u8) && b.name == head(nb, 0u8));
    let ta = a.id + ra;
    let tb = b.id + rb;
    assert(ta == tail(na, 0u8) && tb == tail(nb, 0u8));
    assert(a.id =~= ta.take(20));
    assert(b.id =~= tb.take(20));
    assert(ra =~= ta.skip(20));
    assert(rb =~= tb.skip(20));
}

/// Entries that differ in anything, be it one bit of a mode, have manifests
/// that differ.
pub proof fn lemma_manifest_injective(a: Seq<EntryView>, b: Seq<EntryView>)
    requires
        decodable(a),
        decodable(b),
        manifest(a) == manifest(b),
    ensures
        a == b,
    decreases a.len(),
{
    if a.len() == 0 {
        if b.len() > 0 {
            lemma_manifest_front(b);
            lemma_octal_digits(b[0].mode as nat);
            assert(b[0].manifest().len() > 0);
        }
        assert(a =~= b);
    } else if b.len() == 0 {
        lemma_manifest_front(a);
        lemma_octal_digits(a[0].mode as nat);
        assert(a[0].manifest().len() > 0);
    } else {
        lemma_manifest_front(a);
        lemma_manifest_front(b);
        let ra = manifest(a.drop_first());
        let rb = manifest(b.drop_first());
        lemma_entry_decodes(a[0], ra, b[0], rb);
        assert(decodable(a.drop_first())) by {
            assert forall|i: int| 0 <= i < a.drop_first().len() implies !(
            #[trigger] a.drop_first()[i]).name.contains(0u8) && a.drop_first()[i].id.len() == 20 by {
                assert(a.drop_first()[i] == a[i + 1]);
            }
        }
        assert(decodable(b.drop_first())) by {
            assert forall|i: int| 0 <= i < b.drop_first().len() implies !(
            #[trigger] b.drop_first()[i]).name.contains(0u8) && b.drop_first()[i].id.len() == 20 by {
                assert(b.drop_first()[i] == b[i + 1]);
            }
        }
        lemma_manifest_injective(a.drop_first(), b.drop_first());
        assert(a =~= seq![a[0]] + a.drop_first());
        assert(b =~= seq![b[0]] + b.drop_first());
    }
}

/// Directories whose entries differ in anything are hashed from bytes that
/// differ.
pub proof fn lemma_directory_bytes_differ(a: Seq<EntryView>, b: Seq<EntryView>)
    requires
        decodable(a),
        decodable(b),
        a != b,
    ensures
        object_bytes(tree_label(), manifest(a)) != object_bytes(tree_label(), manifest(b)),
{
    if object_bytes(tree_label(), manifest(a)) == object_bytes(tree_label(), manifest(b)) {
        lemma_object_bytes_injective(tree_label(), manifest(a), manifest(b));
        lemma_manifest_injective(a, b);
    }
}

/// The executable bit of one file, with nothing else changed, changes the
/// manifest of the directory and the bytes that are hashed for it: where
/// `after` is `before` with the mode of the file at `i` turned from that of
/// a file that is not executable into that of one that is.
pub proof fn lemma_executable_bit_changes_bytes(
    before: Seq<EntryView>,
    after: Seq<EntryView>,
    i: int,
)
    requires
        decodable(before),
        0 <= i < before.len(),
        before[i].mode == FILE_MODE,
        after == before.update(i, EntryView { mode: EXECUTABLE_FILE_MODE, ..before[i] }),
    ensures
        manifest(before) != manifest(after),
        object_bytes(tree_label(), manifest(before)) != object_bytes(tree_label(), manifest(after)),
{
    assert(decodable(after)) by {
        assert forall|j: int| 0 <= j < after.len() implies !(#[trigger] after[j]).name.contains(0u8)
            && after[j].id.len() == 20 by {
            assert(!before[j].name.contains(0u8) && before[j].id.len() == 20);
        }
    }
    assert(after[i].mode != before[i].mode);
    lemma_directory_bytes_differ(before, after);
    if manifest(before) == manifest(after) {
        lemma_manifest_injective(before, after);
    }
}

} // verus!

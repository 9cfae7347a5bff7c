//! Sequences that hold the same values, each as often, in another order.

use vstd::prelude::*;
use vstd::seq_lib::{lemma_multiset_commutative, to_multiset_build, to_multiset_remove};

verus! {

/// Where two sequences hold the same values, what a function makes of them
/// is the same values too.
pub proof fn lemma_map_same_values<A, B>(a: Seq<A>, b: Seq<A>, f: spec_fn(A) -> B)
    requires
        a.to_multiset() == b.to_multiset(),
    ensures
        a.map_values(f).to_multiset() == b.map_values(f).to_multiset(),
    decreases a.len(),
{
    broadcast use vstd::seq_lib::group_to_multiset_ensures;

    vstd::seq_lib::to_multiset_len(a);
    vstd::seq_lib::to_multiset_len(b);
    if a.len() == 0 {
        assert(a.map_values(f) =~= b.map_values(f));
    } else {
        let x = a.last();
        let a1 = a.drop_last();
        assert(a =~= a1.push(x));
        assert(a.contains(x));
        assert(b.to_multiset().count(x) > 0);
        assert(b.contains(x));
        let j = choose|j: int| 0 <= j < b.len() && b[j] == x;
        let b1 = b.remove(j);
        to_multiset_build(a1, x);
        to_multiset_remove(b, j);
        assert(a1.to_multiset() =~= a.to_multiset().remove(x));
        assert(a1.to_multiset() == b1.to_multiset());
        lemma_map_same_values(a1, b1, f);
        let fa = a.map_values(f);
        let fb = b.map_values(f);
        assert(fa =~= a1.map_values(f).push(f(x)));
        to_multiset_build(a1.map_values(f), f(x));
        assert(fb.remove(j) =~= b1.map_values(f));
        to_multiset_remove(fb, j);
        assert(fb[j] == f(x));
        assert(fb.to_multiset().count(f(x)) > 0);
        assert(fb.to_multiset() =~= fb.remove(j).to_multiset().insert(f(x)));
    }
}

/// A value that stands at two places of a sequence occurs in it twice or
/// more.
pub proof fn lemma_two_places<A>(s: Seq<A>, i: int, j: int)
    requires
        0 <= i < j < s.len(),
        s[i] == s[j],
    ensures
        s.to_multiset().count(s[i]) >= 2,
{
    broadcast use vstd::seq_lib::group_to_multiset_ensures;

    let s0 = s.subrange(0, j);
    let s1 = s.subrange(j, s.len() as int);
    assert(s =~= s0 + s1);
    lemma_multiset_commutative(s0, s1);
    assert(s0[i] == s[i]);
    assert(s1[0] == s[j]);
    assert(s0.contains(s[i]));
    assert(s1.contains(s[i]));
}

/// Whether a sequence holds no value twice is a matter of its values, not
/// of their order.
pub proof fn lemma_no_duplicates_same_values<A>(a: Seq<A>, b: Seq<A>)
    requires
        a.to_multiset() == b.to_multiset(),
    ensures
        a.no_duplicates() == b.no_duplicates(),
{
    if a.no_duplicates() {
        a.lemma_multiset_has_no_duplicates();
        b.lemma_multiset_has_no_duplicates_conv();
    }
    if b.no_duplicates() {
        b.lemma_multiset_has_no_duplicates();
        a.lemma_multiset_has_no_duplicates_conv();
    }
}

/// What one sequence holds, another with the same values holds too.
pub proof fn lemma_contains_same_values<A>(a: Seq<A>, b: Seq<A>, x: A)
    requires
        a.to_multiset() == b.to_multiset(),
        a.contains(x),
    ensures
        b.contains(x),
{
    broadcast use vstd::seq_lib::group_to_multiset_ensures;

    assert(a.to_multiset().count(x) > 0);
    assert(b.to_multiset().count(x) > 0);
}

/// A value that occurs twice or more in a sequence stands at two places of
/// it.
pub proof fn lemma_twice_at_two_places<A>(s: Seq<A>, x: A)
    requires
        s.to_multiset().count(x) >= 2,
    ensures
        exists|i: int, j: int| 0 <= i < j < s.len() && s[i] == x && s[j] == x,
    decreases s.len(),
{
    broadcast use vstd::seq_lib::group_to_multiset_ensures;

    if s.len() == 0 {
        assert(s.contains(x));
    } else {
        let front = s.drop_last();
        assert(s =~= front.push(s.last()));
        to_multiset_build(front, s.last());
        if s.last() == x {
            assert(front.to_multiset().count(x) >= 1);
            assert(front.contains(x));
            let i = choose|i: int| 0 <= i < front.len() && front[i] == x;
            assert(s[i] == x && s[s.len() - 1] == x);
        } else {
            lemma_twice_at_two_places(front, x);
            let (i, j) = choose|i: int, j: int|
                0 <= i < j < front.len() && front[i] == x && front[j] == x;
            assert(s[i] == x && s[j] == x);
        }
    }
}

} // verus!

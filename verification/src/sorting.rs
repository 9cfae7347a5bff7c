//! Sorting by a key of bytes, and what makes the sorted order unique.

use vstd::multiset::Multiset;
use vstd::prelude::*;
use vstd::seq_lib::{lemma_multiset_commutative, to_multiset_build};
use crate::lex::{lemma_lex_le_antisymmetric, lemma_lex_le_total, lex_le};

verus! {

/// A type whose values are ordered by a key of bytes, which is read off
/// their view.
pub trait SortKey: View {
    /// The key of a value.
    spec fn key(v: Self::V) -> Seq<u8>;

    /// Whether the key of `self` comes before that of `other`, or equals it.
    fn key_le(&self, other: &Self) -> (r: bool)
        ensures
            r == lex_le(Self::key(self@), Self::key(other@)),
    ;
}

/// The views of the values of `s`.
pub open spec fn views<T: View>(s: Seq<T>) -> Seq<T::V> {
    s.map_values(|t: T| t@)
}

/// Whether the keys of `s` never go down.
pub open spec fn ascending<T: SortKey>(s: Seq<T::V>) -> bool {
    forall|i: int, j: int| 0 <= i < j < s.len() ==> lex_le(T::key(s[i]), T::key(s[j]))
}

/// Whether the keys of `s` never go up.
pub open spec fn descending<T: SortKey>(s: Seq<T::V>) -> bool {
    forall|i: int, j: int| 0 <= i < j < s.len() ==> lex_le(T::key(s[j]), T::key(s[i]))
}

/// Whether no two values of `s` have the same key.
pub open spec fn distinct_keys<T: SortKey>(s: Seq<T::V>) -> bool {
    forall|i: int, j: int| 0 <= i < j < s.len() ==> T::key(s[i]) != T::key(s[j])
}

/// Whether every key of `a` comes before every key of `b`, or equals it.
pub open spec fn all_le<T: SortKey>(a: Seq<T::V>, b: Seq<T::V>) -> bool {
    forall|i: int, j: int| 0 <= i < a.len() && 0 <= j < b.len() ==> lex_le(T::key(a[i]), T::key(b[j]))
}

/// Two orders of the same values, both ascending, are the same order, where
/// no two of the values have the same key.
pub proof fn lemma_ascending_unique<T: SortKey>(a: Seq<T::V>, b: Seq<T::V>)
    requires
        ascending::<T>(a),
        ascending::<T>(b),
        distinct_keys::<T>(a),
        a.to_multiset() == b.to_multiset(),
    ensures
        a == b,
    decreases a.len(),
{
    broadcast use vstd::seq_lib::group_to_multiset_ensures;

    vstd::seq_lib::to_multiset_len(a);
    vstd::seq_lib::to_multiset_len(b);
    if a.len() == 0 {
        assert(a =~= b);
    } else {
        let x = a[0];
        let y = b[0];
        assert(a.contains(x));
        assert(b.contains(y));
        assert(b.to_multiset().count(x) > 0);
        assert(a.to_multiset().count(y) > 0);
        assert(b.contains(x));
        assert(a.contains(y));
        let j = choose|j: int| 0 <= j < b.len() && b[j] == x;
        let i = choose|i: int| 0 <= i < a.len() && a[i] == y;
        // key(x) <= key(y) as y stands in a, and key(y) <= key(x) as x stands in b
        if i > 0 {
            assert(lex_le(T::key(a[0]), T::key(a[i])));
        } else {
            crate::lex::lemma_lex_le_reflexive(T::key(x));
        }
        if j > 0 {
            assert(lex_le(T::key(b[0]), T::key(b[j])));
        } else {
            crate::lex::lemma_lex_le_reflexive(T::key(y));
        }
        lemma_lex_le_antisymmetric(T::key(x), T::key(y));
        if i > 0 {
            assert(T::key(a[0]) != T::key(a[i]));
        }
        assert(x == y);
        let a1 = a.remove(0);
        let b1 = b.remove(0);
        assert(a1 =~= a.drop_first());
        assert(b1 =~= b.drop_first());
        assert(a1.to_multiset() == b1.to_multiset());
        assert(ascending::<T>(a1)) by {
            assert forall|p: int, q: int| 0 <= p < q < a1.len() implies lex_le(
                T::key(a1[p]),
                T::key(a1[q]),
            ) by {
                assert(lex_le(T::key(a[p + 1]), T::key(a[q + 1])));
            }
        }
        assert(ascending::<T>(b1)) by {
            assert forall|p: int, q: int| 0 <= p < q < b1.len() implies lex_le(
                T::key(b1[p]),
                T::key(b1[q]),
            ) by {
                assert(lex_le(T::key(b[p + 1]), T::key(b[q + 1])));
            }
        }
        assert(distinct_keys::<T>(a1)) by {
            assert forall|p: int, q: int| 0 <= p < q < a1.len() implies T::key(a1[p]) != T::key(
                a1[q],
            ) by {
                assert(T::key(a[p + 1]) != T::key(a[q + 1]));
            }
        }
        lemma_ascending_unique::<T>(a1, b1);
        assert(a =~= seq![x] + a1);
        assert(b =~= seq![y] + b1);
    }
}

/// The values of `v`, last first.
fn reversed<T: SortKey>(v: Vec<T>) -> (r: Vec<T>)
    ensures
        r@ == v@.reverse(),
{
    let mut v = v;
    let ghost all = v@;
    let mut r: Vec<T> = Vec::new();
    while v.len() > 0
        invariant
            v@ == all.take(v@.len() as int),
            r@.len() + v@.len() == all.len(),
            forall|i: int| 0 <= i < r@.len() ==> r@[i] == all[all.len() - 1 - i],
        decreases v.len(),
    {
        let ghost before = v@;
        let x = v.pop().unwrap();
        r.push(x);
        assert(v@ =~= all.take(v@.len() as int));
    }
    assert(r@ =~= all.reverse());
    r
}

/// Merges two ascending vectors into one.
fn merge<T: SortKey>(left: Vec<T>, right: Vec<T>) -> (r: Vec<T>)
    requires
        ascending::<T>(views(left@)),
        ascending::<T>(views(right@)),
    ensures
        ascending::<T>(views(r@)),
        views(r@).to_multiset() == views(left@).to_multiset().add(views(right@).to_multiset()),
{
    let ghost total = views(left@).to_multiset().add(views(right@).to_multiset());
    let mut left = left;
    let mut right = right;
    // the largest values, the largest first
    let mut back: Vec<T> = Vec::new();
    assert(views(back@) =~= Seq::<T::V>::empty());
    assert(views(back@).to_multiset() =~= Multiset::<T::V>::empty()) by {
        broadcast use vstd::seq_lib::group_to_multiset_ensures;

    }
    assert(views(back@).to_multiset().add(views(left@).to_multiset()).add(
        views(right@).to_multiset(),
    ) =~= total);
    while left.len() > 0 || right.len() > 0
        invariant
            ascending::<T>(views(left@)),
            ascending::<T>(views(right@)),
            descending::<T>(views(back@)),
            all_le::<T>(views(left@), views(back@)),
            all_le::<T>(views(right@), views(back@)),
            views(back@).to_multiset().add(views(left@).to_multiset()).add(
                views(right@).to_multiset(),
            ) == total,
        decreases left.len() + right.len(),
    {
        let ghost l0 = views(left@);
        let ghost r0 = views(right@);
        let ghost b0 = views(back@);
        let from_right = if left.len() == 0 {
            true
        } else if right.len() == 0 {
            false
        } else {
            left[left.len() - 1].key_le(&right[right.len() - 1])
        };
        if from_right {
            let x = right.pop().unwrap();
            back.push(x);
            proof {
                let r1 = views(right@);
                let b1 = views(back@);
                assert(b1 =~= b0.push(x@));
                assert(r0 =~= r1.push(x@));
                to_multiset_build(b0, x@);
                to_multiset_build(r1, x@);
                assert(b1.to_multiset().add(l0.to_multiset()).add(r1.to_multiset()) =~= total);
                assert(ascending::<T>(r1)) by {
                    assert forall|i: int, j: int| 0 <= i < j < r1.len() implies lex_le(
                        T::key(r1[i]),
                        T::key(r1[j]),
                    ) by {
                        assert(lex_le(T::key(r0[i]), T::key(r0[j])));
                    }
                }
                assert(all_le::<T>(r1, b1)) by {
                    assert forall|i: int, j: int|
                        0 <= i < r1.len() && 0 <= j < b1.len() implies lex_le(
                        T::key(r1[i]),
                        T::key(b1[j]),
                    ) by {
                        if j < b0.len() {
                            assert(lex_le(T::key(r0[i]), T::key(b0[j])));
                        } else {
                            assert(lex_le(T::key(r0[i]), T::key(r0[r0.len() - 1])));
                        }
                    }
                }
                assert(all_le::<T>(l0, b1)) by {
                    assert forall|i: int, j: int|
                        0 <= i < l0.len() && 0 <= j < b1.len() implies lex_le(
                        T::key(l0[i]),
                        T::key(b1[j]),
                    ) by {
                        if j < b0.len() {
                            assert(lex_le(T::key(l0[i]), T::key(b0[j])));
                        } else {
                            let last = l0[l0.len() - 1];
                            assert(lex_le(T::key(last), T::key(x@)));
                            if i < l0.len() - 1 {
                                assert(lex_le(T::key(l0[i]), T::key(last)));
                                crate::lex::lemma_lex_le_transitive(
                                    T::key(l0[i]),
                                    T::key(last),
                                    T::key(x@),
                                );
                            }
                        }
                    }
                }
                assert(descending::<T>(b1)) by {
                    assert forall|i: int, j: int| 0 <= i < j < b1.len() implies lex_le(
                        T::key(b1[j]),
                        T::key(b1[i]),
                    ) by {
                        if j < b0.len() {
                            assert(lex_le(T::key(b0[j]), T::key(b0[i])));
                        } else {
                            assert(lex_le(T::key(r0[r0.len() - 1]), T::key(b0[i])));
                        }
                    }
                }
            }
        } else {
            let x = left.pop().unwrap();
            back.push(x);
            proof {
                let l1 = views(left@);
                let b1 = views(back@);
                assert(b1 =~= b0.push(x@));
                assert(l0 =~= l1.push(x@));
                to_multiset_build(b0, x@);
                to_multiset_build(l1, x@);
                assert(b1.to_multiset().add(l1.to_multiset()).add(r0.to_multiset()) =~= total);
                assert(ascending::<T>(l1)) by {
                    assert forall|i: int, j: int| 0 <= i < j < l1.len() implies lex_le(
                        T::key(l1[i]),
                        T::key(l1[j]),
                    ) by {
                        assert(lex_le(T::key(l0[i]), T::key(l0[j])));
                    }
                }
                assert(all_le::<T>(l1, b1)) by {
                    assert forall|i: int, j: int|
                        0 <= i < l1.len() && 0 <= j < b1.len() implies lex_le(
                        T::key(l1[i]),
                        T::key(b1[j]),
                    ) by {
                        if j < b0.len() {
                            assert(lex_le(T::key(l0[i]), T::key(b0[j])));
                        } else {
                            assert(lex_le(T::key(l0[i]), T::key(l0[l0.len() - 1])));
                        }
                    }
                }
                assert(all_le::<T>(r0, b1)) by {
                    assert forall|i: int, j: int|
                        0 <= i < r0.len() && 0 <= j < b1.len() implies lex_le(
                        T::key(r0[i]),
                        T::key(b1[j]),
                    ) by {
                        if j < b0.len() {
                            assert(lex_le(T::key(r0[i]), T::key(b0[j])));
                        } else {
                            let last = r0[r0.len() - 1];
                            lemma_lex_le_total(T::key(x@), T::key(last));
                            assert(lex_le(T::key(last), T::key(x@)));
                            if i < r0.len() - 1 {
                                assert(lex_le(T::key(r0[i]), T::key(last)));
                                crate::lex::lemma_lex_le_transitive(
                                    T::key(r0[i]),
                                    T::key(last),
                                    T::key(x@),
                                );
                            }
                        }
                    }
                }
                assert(descending::<T>(b1)) by {
                    assert forall|i: int, j: int| 0 <= i < j < b1.len() implies lex_le(
                        T::key(b1[j]),
                        T::key(b1[i]),
                    ) by {
                        if j < b0.len() {
                            assert(lex_le(T::key(b0[j]), T::key(b0[i])));
                        } else {
                            assert(lex_le(T::key(l0[l0.len() - 1]), T::key(b0[i])));
                        }
                    }
                }
            }
        }
    }
    let ghost b = views(back@);
    let r = reversed(back);
    proof {
        let s = views(r@);
        assert(s =~= b.reverse());
        b.lemma_reverse_to_multiset();
        assert(views(left@) =~= Seq::<T::V>::empty());
        assert(views(right@) =~= Seq::<T::V>::empty());
        assert(views(left@).to_multiset() =~= Multiset::<T::V>::empty()) by {
            broadcast use vstd::seq_lib::group_to_multiset_ensures;

        }
        assert(views(right@).to_multiset() =~= Multiset::<T::V>::empty()) by {
            broadcast use vstd::seq_lib::group_to_multiset_ensures;

        }
        assert(s.to_multiset() =~= total);
        assert forall|i: int, j: int| 0 <= i < j < s.len() implies lex_le(
            T::key(s[i]),
            T::key(s[j]),
        ) by {
            assert(lex_le(T::key(b[b.len() - 1 - i]), T::key(b[b.len() - 1 - j])));
        }
    }
    r
}

/// Sorts `v` by key: what comes back holds the values of `v`, each as often
/// as `v` does, with keys that never go down.
pub fn sort_by_key<T: SortKey>(v: Vec<T>) -> (r: Vec<T>)
    ensures
        ascending::<T>(views(r@)),
        views(r@).to_multiset() == views(v@).to_multiset(),
    decreases v@.len(),
{
    let n = v.len();
    if n <= 1 {
        return v;
    }
    let mut left = v;
    let right = left.split_off(n / 2);
    proof {
        assert(v@ =~= left@ + right@);
        assert(views(v@) =~= views(left@) + views(right@));
        lemma_multiset_commutative(views(left@), views(right@));
    }
    let left = sort_by_key(left);
    let right = sort_by_key(right);
    merge(left, right)
}

} // verus!

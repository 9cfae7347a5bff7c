//! Searching and splitting sequences.

use vstd::prelude::*;

verus! {

/// The position of the first `x` in `s`, or `s.len()` where `s` holds none.
pub open spec fn first_index<A>(s: Seq<A>, x: A) -> int
    decreases s.len(),
{
    if s.len() == 0 || s[0] == x {
        0
    } else {
        1 + first_index(s.drop_first(), x)
    }
}

/// The position of the last `x` in `s`, or `-1` where `s` holds none.
pub open spec fn last_index<A>(s: Seq<A>, x: A) -> int
    decreases s.len(),
{
    if s.len() == 0 {
        -1
    } else if s.last() == x {
        s.len() - 1
    } else {
        last_index(s.drop_last(), x)
    }
}

/// What `first_index` returns is in range, nothing before it equals `x`, and
/// the element at it does.
pub proof fn lemma_first_index<A>(s: Seq<A>, x: A)
    ensures
        0 <= first_index(s, x) <= s.len(),
        forall|j: int| 0 <= j < first_index(s, x) ==> s[j] != x,
        first_index(s, x) < s.len() ==> s[first_index(s, x)] == x,
        first_index(s, x) == s.len() <==> !s.contains(x),
    decreases s.len(),
{
    if s.len() == 0 || s[0] == x {
    } else {
        let t = s.drop_first();
        lemma_first_index(t, x);
        let k = first_index(t, x);
        assert forall|j: int| 0 <= j < 1 + k implies s[j] != x by {
            if j > 0 {
                assert(s[j] == t[j - 1]);
            }
        }
        if k < t.len() {
            assert(s[1 + k] == t[k]);
        }
        if s.contains(x) {
            let i = choose|i: int| 0 <= i < s.len() && s[i] == x;
            assert(t[i - 1] == x);
            assert(t.contains(x));
        }
    }
}

/// A position that holds `x` with no `x` before it is the first index.
pub proof fn lemma_first_index_is<A>(s: Seq<A>, x: A, k: int)
    requires
        0 <= k <= s.len(),
        forall|j: int| 0 <= j < k ==> s[j] != x,
        k < s.len() ==> s[k] == x,
    ensures
        first_index(s, x) == k,
{
    lemma_first_index(s, x);
    let f = first_index(s, x);
    if f < k {
        assert(s[f] != x);
    } else if f > k {
        assert(s[k] == x);
    }
}

/// Searching a sequence after its first `i` elements, none of which is `x`.
pub proof fn lemma_first_index_skip<A>(s: Seq<A>, x: A, i: int)
    requires
        0 <= i <= s.len(),
        forall|j: int| 0 <= j < i ==> s[j] != x,
    ensures
        first_index(s, x) == i + first_index(s.skip(i), x),
{
    let t = s.skip(i);
    lemma_first_index(t, x);
    let k = first_index(t, x);
    assert forall|j: int| 0 <= j < i + k implies s[j] != x by {
        if j >= i {
            assert(s[j] == t[j - i]);
        }
    }
    if k < t.len() {
        assert(s[i + k] == t[k]);
    }
    lemma_first_index_is(s, x, i + k);
}

/// What `last_index` returns is in range, nothing after it equals `x`, and
/// the element at it does.
pub proof fn lemma_last_index<A>(s: Seq<A>, x: A)
    ensures
        -1 <= last_index(s, x) < s.len(),
        forall|j: int| last_index(s, x) < j < s.len() ==> s[j] != x,
        0 <= last_index(s, x) ==> s[last_index(s, x)] == x,
    decreases s.len(),
{
    if s.len() == 0 || s.last() == x {
    } else {
        let t = s.drop_last();
        lemma_last_index(t, x);
        assert forall|j: int| last_index(t, x) < j < s.len() implies s[j] != x by {
            if j < t.len() {
                assert(s[j] == t[j]);
            }
        }
    }
}

/// The position of the first `x` in a slice of characters.
pub fn find_char(s: &[char], x: char) -> (i: usize)
    ensures
        i == first_index(s@, x),
{
    let mut i: usize = 0;
    while i < s.len()
        invariant
            i <= s.len(),
            forall|j: int| 0 <= j < i ==> s@[j] != x,
        decreases s.len() - i,
    {
        if s[i] == x {
            proof {
                lemma_first_index_is(s@, x, i as int);
            }
            return i;
        }
        i += 1;
    }
    proof {
        lemma_first_index_is(s@, x, i as int);
    }
    i
}

/// The position of the first `x` in a slice of bytes.
pub fn find_byte(s: &[u8], x: u8) -> (i: usize)
    ensures
        i == first_index(s@, x),
{
    let mut i: usize = 0;
    while i < s.len()
        invariant
            i <= s.len(),
            forall|j: int| 0 <= j < i ==> s@[j] != x,
        decreases s.len() - i,
    {
        if s[i] == x {
            proof {
                lemma_first_index_is(s@, x, i as int);
            }
            return i;
        }
        i += 1;
    }
    proof {
        lemma_first_index_is(s@, x, i as int);
    }
    i
}

/// A copy of the bytes of `s` from `from` up to `to`.
pub fn copy_bytes(s: &[u8], from: usize, to: usize) -> (v: Vec<u8>)
    requires
        from <= to <= s.len(),
    ensures
        v@ == s@.subrange(from as int, to as int),
{
    let mut v: Vec<u8> = Vec::new();
    let mut i: usize = from;
    while i < to
        invariant
            from <= i <= to <= s.len(),
            v@ == s@.subrange(from as int, i as int),
        decreases to - i,
    {
        v.push(s[i]);
        i += 1;
    }
    v
}

/// Appends the bytes of `s` to `out`.
pub fn extend_bytes(out: &mut Vec<u8>, s: &[u8])
    ensures
        final(out)@ == old(out)@ + s@,
{
    let mut i: usize = 0;
    while i < s.len()
        invariant
            i <= s.len(),
            out@ == old(out)@ + s@.take(i as int),
        decreases s.len() - i,
    {
        out.push(s[i]);
        i += 1;
    }
    assert(s@.take(s.len() as int) == s@);
}

} // verus!

verus! {

/// What stands before the first `sep` in `s`: all of `s` where it holds none.
pub open spec fn head<A>(s: Seq<A>, sep: A) -> Seq<A> {
    s.take(first_index(s, sep))
}

/// Whether `s` holds a `sep`.
pub open spec fn has_tail<A>(s: Seq<A>, sep: A) -> bool {
    first_index(s, sep) < s.len()
}

/// What stands behind the first `sep` in `s`.
pub open spec fn tail<A>(s: Seq<A>, sep: A) -> Seq<A> {
    s.skip(first_index(s, sep) + 1)
}

/// Splits `s` at its first `sep`: what stands before it, and what stands
/// behind it where there is one.
pub fn split_chars<'a>(s: &'a [char], sep: char) -> (r: (&'a [char], Option<&'a [char]>))
    ensures
        r.0@ == head(s@, sep),
        r.1 is Some == has_tail(s@, sep),
        r.1 matches Some(t) ==> t@ == tail(s@, sep),
{
    let i = find_char(s, sep);
    proof {
        lemma_first_index(s@, sep);
    }
    let before = vstd::slice::slice_subrange(s, 0, i);
    assert(before@ =~= head(s@, sep));
    if i < s.len() {
        let behind = vstd::slice::slice_subrange(s, i + 1, s.len());
        assert(behind@ =~= tail(s@, sep));
        (before, Some(behind))
    } else {
        (before, None)
    }
}

/// A sequence with a `sep` in it is its head, the `sep`, and its tail.
pub proof fn lemma_split_join<A>(s: Seq<A>, sep: A)
    requires
        has_tail(s, sep),
    ensures
        s == head(s, sep) + seq![sep] + tail(s, sep),
        !head(s, sep).contains(sep),
{
    lemma_first_index(s, sep);
    let h = head(s, sep);
    assert(s =~= h + seq![sep] + tail(s, sep));
    if h.contains(sep) {
        let i = choose|i: int| 0 <= i < h.len() && h[i] == sep;
        assert(s[i] == sep);
    }
}

/// Where `a` holds no `sep`, splitting `a`, then `sep`, then `b` gives `a`
/// and `b` back.
pub proof fn lemma_split_of_join<A>(a: Seq<A>, sep: A, b: Seq<A>)
    requires
        !a.contains(sep),
    ensures
        has_tail(a + seq![sep] + b, sep),
        head(a + seq![sep] + b, sep) == a,
        tail(a + seq![sep] + b, sep) == b,
{
    let s = a + seq![sep] + b;
    assert forall|j: int| 0 <= j < a.len() implies s[j] != sep by {
        assert(s[j] == a[j]);
        assert(a.contains(a[j]));
    }
    assert(s[a.len() as int] == sep);
    lemma_first_index_is(s, sep, a.len() as int);
    assert(head(s, sep) =~= a);
    assert(tail(s, sep) =~= b);
}

/// A sequence without `sep` is its own head and has no tail.
pub proof fn lemma_split_none<A>(a: Seq<A>, sep: A)
    requires
        !a.contains(sep),
    ensures
        !has_tail(a, sep),
        head(a, sep) == a,
{
    lemma_first_index(a, sep);
    assert(head(a, sep) =~= a);
}

/// The tail of a sequence is shorter than the sequence.
pub proof fn lemma_tail_shorter<A>(s: Seq<A>, sep: A)
    requires
        has_tail(s, sep),
    ensures
        tail(s, sep).len() == s.len() - first_index(s, sep) - 1,
        tail(s, sep).len() < s.len(),
{
    lemma_first_index(s, sep);
}

/// Two sequences without `x`, one behind the other, hold no `x`.
pub proof fn lemma_concat_without<A>(a: Seq<A>, b: Seq<A>, x: A)
    requires
        !a.contains(x),
        !b.contains(x),
    ensures
        !(a + b).contains(x),
{
    let s = a + b;
    if s.contains(x) {
        let i = choose|i: int| 0 <= i < s.len() && s[i] == x;
        if i < a.len() {
            assert(a[i] == x);
            assert(a.contains(x));
        } else {
            assert(b[i - a.len()] == x);
            assert(b.contains(x));
        }
    }
}

/// A sequence of one element that is not `x` holds no `x`.
pub proof fn lemma_one_without<A>(y: A, x: A)
    requires
        y != x,
    ensures
        !seq![y].contains(x),
{
    if seq![y].contains(x) {
        let i = choose|i: int| 0 <= i < seq![y].len() && seq![y][i] == x;
        assert(seq![y][i] == y);
    }
}

} // verus!

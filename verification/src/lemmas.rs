//! Facts about sequences and sets used across the library.

use vstd::prelude::*;

verus! {

/// Pushing an element adds it to the sequence's set of elements.
pub proof fn lemma_push_to_set<A>(s: Seq<A>, x: A)
    ensures
        s.push(x).to_set() == s.to_set().insert(x),
{
    assert forall|y: A| s.push(x).to_set().contains(y) <==> s.to_set().insert(x).contains(y) by {
        if s.push(x).contains(y) {
            let i = choose|i: int| 0 <= i < s.push(x).len() && s.push(x)[i] == y;
            if i < s.len() {
                assert(s[i] == y);
                assert(s.contains(y));
            }
        }
        if s.contains(y) {
            let i = choose|i: int| 0 <= i < s.len() && s[i] == y;
            assert(s.push(x)[i] == y);
        }
        if y == x {
            assert(s.push(x)[s.len() as int] == x);
        }
    }
    assert(s.push(x).to_set() =~= s.to_set().insert(x));
}

/// The elements of a sequence after a push.
pub proof fn lemma_push_contains<A>(s: Seq<A>, x: A)
    ensures
        forall|y: A| #[trigger] s.push(x).contains(y) <==> s.contains(y) || y == x,
{
    lemma_push_to_set(s, x);
    assert forall|y: A| #[trigger] s.push(x).contains(y) <==> s.contains(y) || y == x by {
        assert(s.push(x).to_set().contains(y) == s.push(x).contains(y));
        assert(s.to_set().contains(y) == s.contains(y));
    }
}

/// Pushing an element that does not occur keeps a sequence free of
/// duplicates.
pub proof fn lemma_push_no_dup<A>(s: Seq<A>, x: A)
    requires
        s.no_duplicates(),
        !s.contains(x),
    ensures
        s.push(x).no_duplicates(),
{
    assert forall|i: int, j: int|
        0 <= i < s.push(x).len() && 0 <= j < s.push(x).len() && i != j implies s.push(x)[i]
        != s.push(x)[j] by {
        if i < s.len() && j < s.len() {
        } else if i < s.len() {
            assert(s.contains(s[i]));
        } else {
            assert(s.contains(s[j]));
        }
    }
}

/// One step of `Seq::filter` on a prefix.
pub proof fn lemma_filter_take_step<A>(s: Seq<A>, pred: spec_fn(A) -> bool, i: int)
    requires
        0 <= i < s.len(),
    ensures
        s.take(i + 1).filter(pred) == (if pred(s[i]) {
            s.take(i).filter(pred).push(s[i])
        } else {
            s.take(i).filter(pred)
        }),
{
    reveal(Seq::filter);
    assert(s.take(i + 1).drop_last() =~= s.take(i));
    assert(s.take(i + 1).last() == s[i]);
}

/// A sequence of distinct values that an injective map sends into `[0, n)`
/// has at most `n` elements.
pub proof fn lemma_distinct_len_bound<A>(s: Seq<A>, f: spec_fn(A) -> int, n: int)
    requires
        s.no_duplicates(),
        forall|i: int, j: int| 0 <= i < s.len() && 0 <= j < s.len() && f(s[i]) == f(s[j]) ==> i == j,
        forall|i: int| 0 <= i < s.len() ==> 0 <= #[trigger] f(s[i]) < n,
        0 <= n,
    ensures
        s.len() <= n,
{
    let t = s.map_values(f);
    assert(t.no_duplicates()) by {
        assert forall|i: int, j: int| 0 <= i < t.len() && 0 <= j < t.len() && i != j implies t[i]
            != t[j] by {
            assert(t[i] == f(s[i]));
            assert(t[j] == f(s[j]));
        }
    }
    t.unique_seq_to_set();
    vstd::set_lib::lemma_int_range(0, n);
    assert(t.to_set().subset_of(vstd::set_lib::set_int_range(0, n))) by {
        assert forall|v: int| t.to_set().contains(v) implies vstd::set_lib::set_int_range(
            0,
            n,
        ).contains(v) by {
            let i = choose|i: int| 0 <= i < t.len() && t[i] == v;
            assert(t[i] == f(s[i]));
        }
    }
    vstd::set_lib::lemma_len_subset(t.to_set(), vstd::set_lib::set_int_range(0, n));
}

/// A sequence of distinct `u32` values has at most 2^32 elements.
pub proof fn lemma_distinct_u32_len(s: Seq<u32>)
    requires
        s.no_duplicates(),
    ensures
        s.len() <= 0x1_0000_0000,
{
    lemma_distinct_len_bound(s, |x: u32| x as int, 0x1_0000_0000);
}

/// The elements of a concatenation are those of its two parts.
pub proof fn lemma_concat_contains<A>(a: Seq<A>, b: Seq<A>)
    ensures
        forall|y: A| #[trigger] (a + b).contains(y) <==> a.contains(y) || b.contains(y),
{
    assert forall|y: A| #[trigger] (a + b).contains(y) <==> a.contains(y) || b.contains(y) by {
        if (a + b).contains(y) {
            let i = choose|i: int| 0 <= i < (a + b).len() && (a + b)[i] == y;
            if i < a.len() {
                assert(a[i] == y);
            } else {
                assert(b[i - a.len()] == y);
            }
        }
        if a.contains(y) {
            let i = choose|i: int| 0 <= i < a.len() && a[i] == y;
            assert((a + b)[i] == y);
        }
        if b.contains(y) {
            let i = choose|i: int| 0 <= i < b.len() && b[i] == y;
            assert((a + b)[a.len() + i] == y);
        }
    }
}

} // verus!

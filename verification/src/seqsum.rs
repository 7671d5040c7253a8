//! Summing a measure over a sequence, with the lemmas that loops over
//! vectors need.

use vstd::prelude::*;

verus! {

/// The sum of `f` over all elements of `s`.
pub open spec fn sum_by<T>(s: Seq<T>, f: spec_fn(T) -> int) -> int
    decreases s.len(),
{
    if s.len() == 0 {
        0
    } else {
        sum_by(s.drop_last(), f) + f(s.last())
    }
}

/// Extending a prefix by one element adds that element's measure.
pub proof fn lemma_sum_by_take_step<T>(s: Seq<T>, f: spec_fn(T) -> int, i: int)
    requires
        0 <= i < s.len(),
    ensures
        sum_by(s.take(i + 1), f) == sum_by(s.take(i), f) + f(s[i]),
{
    assert(s.take(i + 1).drop_last() =~= s.take(i));
    assert(s.take(i + 1).last() == s[i]);
}

/// The whole sequence is its own `take`.
pub proof fn lemma_sum_by_take_all<T>(s: Seq<T>, f: spec_fn(T) -> int)
    ensures
        sum_by(s.take(s.len() as int), f) == sum_by(s, f),
{
    assert(s.take(s.len() as int) =~= s);
}

/// With a non-negative measure, every prefix sum is bounded by the total.
pub proof fn lemma_sum_by_prefix_bound<T>(s: Seq<T>, f: spec_fn(T) -> int, i: int)
    requires
        0 <= i <= s.len(),
        forall|j: int| 0 <= j < s.len() ==> f(#[trigger] s[j]) >= 0,
    ensures
        sum_by(s.take(i), f) <= sum_by(s, f),
    decreases s.len() - i,
{
    if i == s.len() {
        lemma_sum_by_take_all(s, f);
    } else {
        lemma_sum_by_take_step(s, f, i);
        lemma_sum_by_prefix_bound(s, f, i + 1);
    }
}

/// The concatenation of `f` over all elements of `s`, in order.
pub open spec fn flat_by<T, S>(s: Seq<T>, f: spec_fn(T) -> Seq<S>) -> Seq<S>
    decreases s.len(),
{
    if s.len() == 0 {
        Seq::empty()
    } else {
        flat_by(s.drop_last(), f) + f(s.last())
    }
}

/// Extending a prefix by one element appends that element's contribution.
pub proof fn lemma_flat_by_take_step<T, S>(s: Seq<T>, f: spec_fn(T) -> Seq<S>, i: int)
    requires
        0 <= i < s.len(),
    ensures
        flat_by(s.take(i + 1), f) == flat_by(s.take(i), f) + f(s[i]),
{
    assert(s.take(i + 1).drop_last() =~= s.take(i));
    assert(s.take(i + 1).last() == s[i]);
}

/// The whole sequence is its own `take`.
pub proof fn lemma_flat_by_take_all<T, S>(s: Seq<T>, f: spec_fn(T) -> Seq<S>)
    ensures
        flat_by(s.take(s.len() as int), f) == flat_by(s, f),
{
    assert(s.take(s.len() as int) =~= s);
}

/// Each element's contribution is no longer than the whole concatenation.
pub proof fn lemma_flat_by_elem_len<T, S>(s: Seq<T>, f: spec_fn(T) -> Seq<S>, i: int)
    requires
        0 <= i < s.len(),
    ensures
        f(s[i]).len() <= flat_by(s, f).len(),
    decreases s.len(),
{
    if i == s.len() - 1 {
        assert(s.last() == s[i]);
    } else {
        lemma_flat_by_elem_len(s.drop_last(), f, i);
        assert(s.drop_last()[i] == s[i]);
    }
}

/// With a non-negative measure, the sum is non-negative.
pub proof fn lemma_sum_by_nonneg<T>(s: Seq<T>, f: spec_fn(T) -> int)
    requires
        forall|j: int| 0 <= j < s.len() ==> f(#[trigger] s[j]) >= 0,
    ensures
        sum_by(s, f) >= 0,
    decreases s.len(),
{
    if s.len() > 0 {
        assert(forall|j: int|
            0 <= j < s.drop_last().len() ==> f(#[trigger] s.drop_last()[j]) >= 0);
        lemma_sum_by_nonneg(s.drop_last(), f);
    }
}

} // verus!

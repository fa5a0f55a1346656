//! Sums over sequences.
use crate::order::{placed, sorted, Order};
use vstd::prelude::*;

verus! {

/// The sum of what `f` gives for each element.
pub open spec fn sum_of<T>(s: Seq<T>, f: spec_fn(T) -> nat) -> nat
    decreases s.len(),
{
    if s.len() == 0 {
        0
    } else {
        sum_of(s.drop_last(), f) + f(s.last())
    }
}

/// A sum grows with its sequence.
pub proof fn lemma_sum_push<T>(s: Seq<T>, x: T, f: spec_fn(T) -> nat)
    ensures
        sum_of(s.push(x), f) == sum_of(s, f) + f(x),
{
    assert(s.push(x).drop_last() == s);
}

/// The sum of a prefix with the next element.
pub proof fn lemma_sum_take<T>(s: Seq<T>, i: int, f: spec_fn(T) -> nat)
    requires
        0 <= i < s.len(),
    ensures
        sum_of(s.take(i + 1), f) == sum_of(s.take(i), f) + f(s[i]),
        sum_of(s.take(i + 1), f) <= sum_of(s, f),
    decreases s.len() - i,
{
    assert(s.take(i + 1).drop_last() == s.take(i));
    if i + 1 < s.len() {
        lemma_sum_take(s, i + 1, f);
    } else {
        assert(s.take(i + 1) == s);
    }
}

/// The sum of two sequences one after the other.
pub proof fn lemma_sum_append<T>(a: Seq<T>, b: Seq<T>, f: spec_fn(T) -> nat)
    ensures
        sum_of(a + b, f) == sum_of(a, f) + sum_of(b, f),
    decreases b.len(),
{
    if b.len() == 0 {
        assert(a + b == a);
    } else {
        assert((a + b).drop_last() == a + b.drop_last());
        lemma_sum_append(a, b.drop_last(), f);
    }
}

/// No element is more than the sum.
pub proof fn lemma_sum_part<T>(s: Seq<T>, i: int, f: spec_fn(T) -> nat)
    requires
        0 <= i < s.len(),
    ensures
        f(s[i]) <= sum_of(s, f),
    decreases s.len(),
{
    if i < s.len() - 1 {
        lemma_sum_part(s.drop_last(), i, f);
    }
}

/// What a changed element does to the sum.
pub proof fn lemma_sum_update<T>(s: Seq<T>, i: int, x: T, f: spec_fn(T) -> nat)
    requires
        0 <= i < s.len(),
    ensures
        sum_of(s.update(i, x), f) == sum_of(s, f) - f(s[i]) + f(x),
    decreases s.len(),
{
    let t = s.update(i, x);
    if i == s.len() - 1 {
        assert(t.drop_last() == s.drop_last());
    } else {
        assert(t.drop_last() == s.drop_last().update(i, x));
        lemma_sum_update(s.drop_last(), i, x, f);
    }
}

/// What an element put in does to the sum.
pub proof fn lemma_sum_insert<T>(s: Seq<T>, i: int, x: T, f: spec_fn(T) -> nat)
    requires
        0 <= i <= s.len(),
    ensures
        sum_of(s.insert(i, x), f) == sum_of(s, f) + f(x),
    decreases s.len(),
{
    let t = s.insert(i, x);
    if i == s.len() {
        assert(t == s.push(x));
        lemma_sum_push(s, x, f);
    } else {
        assert(t.drop_last() == s.drop_last().insert(i, x));
        lemma_sum_insert(s.drop_last(), i, x, f);
    }
}

/// Leaving out elements never adds to a sum, and takes nothing from it where
/// those left out give nothing.
pub proof fn lemma_sum_filter<T>(s: Seq<T>, keep: spec_fn(T) -> bool, f: spec_fn(T) -> nat)
    ensures
        sum_of(s.filter(keep), f) <= sum_of(s, f),
        (forall|x: T| !#[trigger] keep(x) ==> f(x) == 0) ==> sum_of(s.filter(keep), f) == sum_of(
            s,
            f,
        ),
    decreases s.len(),
{
    reveal(Seq::filter);
    if s.len() > 0 {
        lemma_sum_filter(s.drop_last(), keep, f);
        if keep(s.last()) {
            lemma_sum_push(s.drop_last().filter(keep), s.last(), f);
        }
    }
}

proof fn lemma_sum_placed<T, O: Order<T>>(s: Seq<T>, x: T, f: spec_fn(T) -> nat)
    ensures
        sum_of(placed::<T, O>(s, x), f) == sum_of(s, f) + f(x),
    decreases s.len(),
{
    if s.len() == 0 || O::le(s.last(), x) {
        lemma_sum_push(s, x, f);
    } else {
        lemma_sum_placed::<T, O>(s.drop_last(), x, f);
        lemma_sum_push(placed::<T, O>(s.drop_last(), x), s.last(), f);
    }
}

/// Sorting keeps sums.
pub proof fn lemma_sum_sorted<T, O: Order<T>>(s: Seq<T>, f: spec_fn(T) -> nat)
    ensures
        sum_of(sorted::<T, O>(s), f) == sum_of(s, f),
    decreases s.len(),
{
    if s.len() > 0 {
        lemma_sum_sorted::<T, O>(s.drop_last(), f);
        lemma_sum_placed::<T, O>(sorted::<T, O>(s.drop_last()), s.last(), f);
    }
}

/// What filtering does to the next element.
pub proof fn lemma_filter_take<T>(s: Seq<T>, i: int, keep: spec_fn(T) -> bool)
    requires
        0 <= i < s.len(),
    ensures
        s.take(i + 1).filter(keep) == if keep(s[i]) {
            s.take(i).filter(keep).push(s[i])
        } else {
            s.take(i).filter(keep)
        },
{
    reveal(Seq::filter);
    assert(s.take(i + 1).drop_last() == s.take(i));
}

/// Filtering keeps only elements that pass, and no more than there were.
pub proof fn lemma_filter<T>(s: Seq<T>, keep: spec_fn(T) -> bool)
    ensures
        s.filter(keep).len() <= s.len(),
        forall|i: int| 0 <= i < s.filter(keep).len() ==> keep(#[trigger] s.filter(keep)[i]),
        s.filter(keep).len() == s.len() ==> s.filter(keep) == s,
        (forall|i: int| 0 <= i < s.len() ==> keep(#[trigger] s[i])) ==> s.filter(keep) == s,
    decreases s.len(),
{
    reveal(Seq::filter);
    if s.len() > 0 {
        lemma_filter(s.drop_last(), keep);
        assert(s == s.drop_last().push(s.last()));
        assert forall|i: int| 0 <= i < s.filter(keep).len() implies keep(
            #[trigger] s.filter(keep)[i],
        ) by {
            if i < s.drop_last().filter(keep).len() {
                assert(s.filter(keep)[i] == s.drop_last().filter(keep)[i]);
            }
        }
        if forall|i: int| 0 <= i < s.len() ==> keep(#[trigger] s[i]) {
            assert forall|i: int| 0 <= i < s.drop_last().len() implies keep(
                #[trigger] s.drop_last()[i],
            ) by {
                assert(s.drop_last()[i] == s[i]);
            }
            assert(keep(s[s.len() - 1]));
        }
    }
}

/// What passes through a filter stands in the filtered sequence, and nothing
/// else does.
pub proof fn lemma_filter_members<T>(s: Seq<T>, keep: spec_fn(T) -> bool, x: T)
    ensures
        s.filter(keep).contains(x) <==> s.contains(x) && keep(x),
    decreases s.len(),
{
    reveal(Seq::filter);
    if s.len() > 0 {
        let t = s.drop_last();
        lemma_filter_members(t, keep, x);
        assert(s == t.push(s.last()));
        let f = t.filter(keep);
        if s.contains(x) && !t.contains(x) {
            assert(s.last() == x);
        }
        if t.contains(x) {
            let i = choose|i: int| 0 <= i < t.len() && t[i] == x;
            assert(s[i] == x);
        }
        if f.contains(x) && keep(s.last()) {
            let i = choose|i: int| 0 <= i < f.len() && f[i] == x;
            assert(f.push(s.last())[i] == x);
        }
        if keep(s.last()) {
            assert(f.push(s.last())[f.len() as int] == s.last());
            if f.push(s.last()).contains(x) && !f.contains(x) {
                let i = choose|i: int|
                    0 <= i < f.push(s.last()).len() && f.push(s.last())[i] == x;
                assert(i == f.len());
                assert(s[s.len() - 1] == x);
            }
        }
    }
}

} // verus!

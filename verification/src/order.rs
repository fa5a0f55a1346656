//! Stable sorting by an order chosen at the call.
use vstd::prelude::*;

verus! {

/// A total preorder on `T`: `le(a, b)` says that `a` may stand before `b`.
pub trait Order<T> {
    spec fn le(a: T, b: T) -> bool;

    proof fn total(a: T, b: T)
        ensures
            Self::le(a, b) || Self::le(b, a),
    ;

    proof fn transitive(a: T, b: T, c: T)
        requires
            Self::le(a, b),
            Self::le(b, c),
        ensures
            Self::le(a, c),
    ;

    fn may_precede(a: &T, b: &T) -> (r: bool)
        ensures
            r == Self::le(*a, *b),
    ;
}

/// `s` with `x` behind the last element that may precede it, the elements
/// after that place moved back.
pub open spec fn placed<T, O: Order<T>>(s: Seq<T>, x: T) -> Seq<T>
    decreases s.len(),
{
    if s.len() == 0 || O::le(s.last(), x) {
        s.push(x)
    } else {
        placed::<T, O>(s.drop_last(), x).push(s.last())
    }
}

/// The elements of `s` in order, equal ones in the order they had.
pub open spec fn sorted<T, O: Order<T>>(s: Seq<T>) -> Seq<T>
    decreases s.len(),
{
    if s.len() == 0 {
        s
    } else {
        placed::<T, O>(sorted::<T, O>(s.drop_last()), s.last())
    }
}

/// Each element may precede every later one.
pub open spec fn in_order<T, O: Order<T>>(s: Seq<T>) -> bool {
    forall|i: int, j: int| 0 <= i <= j < s.len() ==> O::le(#[trigger] s[i], #[trigger] s[j])
}

/// The two sequences merged, those of `a` before equal ones of `b`.
spec fn merged<T, O: Order<T>>(a: Seq<T>, b: Seq<T>) -> Seq<T>
    decreases a.len() + b.len(),
{
    if b.len() == 0 {
        a
    } else if a.len() == 0 {
        b
    } else if O::le(a.last(), b.last()) {
        merged::<T, O>(a, b.drop_last()).push(b.last())
    } else {
        merged::<T, O>(a.drop_last(), b).push(a.last())
    }
}

/// The last element of a merge is the last of one of the two.
proof fn lemma_merged_last<T, O: Order<T>>(a: Seq<T>, b: Seq<T>)
    ensures
        merged::<T, O>(a, b).len() == a.len() + b.len(),
        a.len() + b.len() > 0 ==> (a.len() > 0 && merged::<T, O>(a, b).last() == a.last() || b.len()
            > 0 && merged::<T, O>(a, b).last() == b.last()),
    decreases a.len() + b.len(),
{
    if b.len() > 0 && a.len() > 0 {
        if O::le(a.last(), b.last()) {
            lemma_merged_last::<T, O>(a, b.drop_last());
        } else {
            lemma_merged_last::<T, O>(a.drop_last(), b);
        }
    }
}

/// Placing after merging is merging after placing.
proof fn lemma_merged_placed<T, O: Order<T>>(a: Seq<T>, b: Seq<T>, x: T)
    ensures
        merged::<T, O>(a, placed::<T, O>(b, x)) == placed::<T, O>(merged::<T, O>(a, b), x),
    decreases a.len() + b.len(),
{
    let m = merged::<T, O>(a, b);
    let p = placed::<T, O>(b, x);
    lemma_merged_last::<T, O>(a, b);
    if b.len() == 0 || O::le(b.last(), x) {
        assert(p == b.push(x));
        assert(p.drop_last() == b);
        if a.len() > 0 {
            if O::le(a.last(), x) {
            } else {
                if b.len() > 0 && O::le(a.last(), b.last()) {
                    O::transitive(a.last(), b.last(), x);
                }
                lemma_merged_placed::<T, O>(a.drop_last(), b, x);
                assert(m.last() == a.last());
                assert(m.drop_last() == merged::<T, O>(a.drop_last(), b)) by {
                    if b.len() == 0 {
                        assert(merged::<T, O>(a.drop_last(), b) == a.drop_last());
                    }
                }
            }
        } else {
            assert(m == b);
        }
    } else {
        assert(p.drop_last() == placed::<T, O>(b.drop_last(), x));
        assert(p.last() == b.last());
        if a.len() > 0 {
            if O::le(a.last(), b.last()) {
                lemma_merged_placed::<T, O>(a, b.drop_last(), x);
                assert(m.drop_last() == merged::<T, O>(a, b.drop_last()));
            } else {
                if O::le(a.last(), x) {
                    O::total(x, b.last());
                    O::transitive(a.last(), x, b.last());
                }
                lemma_merged_placed::<T, O>(a.drop_last(), b, x);
                assert(m.drop_last() == merged::<T, O>(a.drop_last(), b));
            }
        } else {
            assert(m == b);
        }
    }
}

/// Sorting a concatenation is merging the two sorted halves.
proof fn lemma_merged_sorted<T, O: Order<T>>(a: Seq<T>, b: Seq<T>)
    ensures
        sorted::<T, O>(a + b) == merged::<T, O>(sorted::<T, O>(a), sorted::<T, O>(b)),
    decreases b.len(),
{
    if b.len() == 0 {
        assert(a + b == a);
    } else {
        assert((a + b).drop_last() == a + b.drop_last());
        lemma_merged_sorted::<T, O>(a, b.drop_last());
        lemma_merged_placed::<T, O>(sorted::<T, O>(a), sorted::<T, O>(b.drop_last()), b.last());
    }
}

/// Placing keeps the elements and adds one.
pub proof fn lemma_placed<T, O: Order<T>>(s: Seq<T>, x: T)
    ensures
        placed::<T, O>(s, x).len() == s.len() + 1,
        placed::<T, O>(s, x).to_multiset() == s.to_multiset().insert(x),
        in_order::<T, O>(s) ==> in_order::<T, O>(placed::<T, O>(s, x)),
    decreases s.len(),
{
    broadcast use vstd::seq_lib::group_to_multiset_ensures;

    let p = placed::<T, O>(s, x);
    if s.len() == 0 || O::le(s.last(), x) {
        assert(p == s.push(x));
        if in_order::<T, O>(s) {
            assert forall|i: int, j: int| 0 <= i <= j < p.len() implies O::le(
                #[trigger] p[i],
                #[trigger] p[j],
            ) by {
                if j == s.len() {
                    O::total(x, x);
                    if i < s.len() {
                        assert(O::le(s[i], s[s.len() - 1]));
                        O::transitive(s[i], s.last(), x);
                    }
                } else {
                    assert(O::le(s[i], s[j]));
                }
            }
        }
    } else {
        let q = placed::<T, O>(s.drop_last(), x);
        lemma_placed::<T, O>(s.drop_last(), x);
        assert(p == q.push(s.last()));
        assert(s == s.drop_last().push(s.last()));
        assert(p.to_multiset() =~= s.to_multiset().insert(x));
        if in_order::<T, O>(s) {
            assert(in_order::<T, O>(s.drop_last())) by {
                assert forall|i: int, j: int| 0 <= i <= j < s.drop_last().len() implies O::le(
                    #[trigger] s.drop_last()[i],
                    #[trigger] s.drop_last()[j],
                ) by {
                    assert(O::le(s[i], s[j]));
                }
            }
            O::total(x, s.last());
            O::total(s.last(), s.last());
            assert forall|i: int, j: int| 0 <= i <= j < p.len() implies O::le(
                #[trigger] p[i],
                #[trigger] p[j],
            ) by {
                if j < q.len() {
                    assert(O::le(q[i], q[j]));
                } else if i < q.len() {
                    assert(q.to_multiset().contains(q[i]));
                    assert(s.drop_last().to_multiset().insert(x).contains(q[i]));
                    if q[i] != x {
                        assert(s.drop_last().to_multiset().contains(q[i]));
                        let k = choose|k: int|
                            0 <= k < s.drop_last().len() && s.drop_last()[k] == q[i];
                        assert(O::le(s[k], s[s.len() - 1]));
                    }
                }
            }
        }
    }
}

/// Sorting keeps the elements and puts them in order.
pub proof fn lemma_sorted<T, O: Order<T>>(s: Seq<T>)
    ensures
        sorted::<T, O>(s).len() == s.len(),
        sorted::<T, O>(s).to_multiset() == s.to_multiset(),
        in_order::<T, O>(sorted::<T, O>(s)),
    decreases s.len(),
{
    broadcast use vstd::seq_lib::group_to_multiset_ensures;

    if s.len() > 0 {
        lemma_sorted::<T, O>(s.drop_last());
        lemma_placed::<T, O>(sorted::<T, O>(s.drop_last()), s.last());
        assert(s == s.drop_last().push(s.last()));
    }
}

/// Sorting leaves a sequence that is in order as it is.
pub proof fn lemma_sorted_in_order<T, O: Order<T>>(s: Seq<T>)
    requires
        in_order::<T, O>(s),
    ensures
        sorted::<T, O>(s) == s,
    decreases s.len(),
{
    if s.len() > 0 {
        assert(in_order::<T, O>(s.drop_last())) by {
            assert forall|i: int, j: int| 0 <= i <= j < s.drop_last().len() implies O::le(
                #[trigger] s.drop_last()[i],
                #[trigger] s.drop_last()[j],
            ) by {
                assert(O::le(s[i], s[j]));
            }
        }
        lemma_sorted_in_order::<T, O>(s.drop_last());
        if s.len() > 1 {
            assert(O::le(s[s.len() - 2], s[s.len() - 1]));
        }
        assert(s == s.drop_last().push(s.last()));
    }
}

/// Merges two vectors, each in order.
fn merge<T, O: Order<T>>(left: Vec<T>, right: Vec<T>) -> (r: Vec<T>)
    ensures
        r@ == merged::<T, O>(left@, right@),
{
    let mut a = left;
    let mut b = right;
    let mut back: Vec<T> = Vec::new();
    assert(back@.reverse() == Seq::<T>::empty());
    assert(merged::<T, O>(a@, b@) + back@.reverse() == merged::<T, O>(a@, b@));
    while a.len() > 0 && b.len() > 0
        invariant
            merged::<T, O>(left@, right@) == merged::<T, O>(a@, b@) + back@.reverse(),
        decreases a@.len() + b@.len(),
    {
        let ghost rest = back@.reverse();
        let from_right = O::may_precede(&a[a.len() - 1], &b[b.len() - 1]);
        let x = if from_right {
            b.pop().unwrap()
        } else {
            a.pop().unwrap()
        };
        back.push(x);
        proof {
            assert(back@.reverse() =~= seq![x] + rest);
            assert(merged::<T, O>(a@, b@).push(x) + rest =~= merged::<T, O>(a@, b@) + (seq![x]
                + rest));
        }
    }
    let mut r: Vec<T> = if a.len() > 0 {
        a
    } else {
        b
    };
    let ghost front = r@;
    while back.len() > 0
        invariant
            merged::<T, O>(left@, right@) == r@ + back@.reverse(),
        decreases back@.len(),
    {
        let ghost before = back@;
        let ghost sofar = r@;
        let x = back.pop().unwrap();
        r.push(x);
        proof {
            assert(before.reverse() =~= seq![x] + back@.reverse());
            assert(sofar + (seq![x] + back@.reverse()) =~= sofar.push(x) + back@.reverse());
        }
    }
    assert(r@ + back@.reverse() =~= r@);
    r
}

/// Sorts a vector: equal elements keep the order they had.
pub fn sort<T, O: Order<T>>(items: Vec<T>) -> (r: Vec<T>)
    ensures
        r@ == sorted::<T, O>(items@),
    decreases items@.len(),
{
    let size: usize = items.len();
    if size < 2 {
        proof {
            if size == 1 {
                assert(items@.drop_last() == Seq::<T>::empty());
                assert(sorted::<T, O>(items@.drop_last()) == Seq::<T>::empty());
                assert(items@ == Seq::<T>::empty().push(items@.last()));
            }
        }
        return items;
    }
    let mut left = items;
    let right = left.split_off(size / 2);
    proof {
        assert(left@ + right@ == items@);
        lemma_merged_sorted::<T, O>(left@, right@);
    }
    let a = sort::<T, O>(left);
    let b = sort::<T, O>(right);
    merge::<T, O>(a, b)
}

/// Puts `x` into a vector behind the last element that may precede it.
pub fn place<T, O: Order<T>>(items: &mut Vec<T>, x: T)
    ensures
        final(items)@ == placed::<T, O>(old(items)@, x),
{
    let ghost s = items@;
    let mut at: usize = items.len();
    assert(s.take(at as int) == s);
    assert(placed::<T, O>(s, x) =~= placed::<T, O>(s.take(at as int), x) + s.skip(at as int));
    while at > 0 && !O::may_precede(&items[at - 1], &x)
        invariant
            items@ == s,
            at <= s.len(),
            placed::<T, O>(s, x) == placed::<T, O>(s.take(at as int), x) + s.skip(at as int),
        decreases at,
    {
        proof {
            let cur = s.take(at as int);
            assert(cur.drop_last() == s.take(at - 1));
            assert(placed::<T, O>(cur.drop_last(), x).push(cur.last()) + s.skip(at as int)
                =~= placed::<T, O>(cur.drop_last(), x) + s.skip(at - 1));
        }
        at = at - 1;
    }
    proof {
        let cur = s.take(at as int);
        assert(placed::<T, O>(cur, x) == cur.push(x));
        assert(s.insert(at as int, x) =~= cur.push(x) + s.skip(at as int));
    }
    items.insert(at, x);
}

} // verus!

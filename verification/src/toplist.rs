//! The largest entries of a stream.
use crate::order::{
    in_order, lemma_placed, lemma_sorted, lemma_sorted_in_order, place, placed, sort, sorted, Order,
};
use crate::snapshot::{lemma_text_le_transitive, FileRank, SizedEntry};
use crate::text::{lemma_text_lt_asymmetric, lemma_text_lt_total, text_before, text_le};
use vstd::prelude::*;

verus! {

/// Smaller before larger: by bytes, bytes on disk, then path.
pub struct BySize;

impl Order<SizedEntry> for BySize {
    open spec fn le(a: SizedEntry, b: SizedEntry) -> bool {
        a.bytes < b.bytes || (a.bytes == b.bytes && (a.allocated_bytes < b.allocated_bytes || (
        a.allocated_bytes == b.allocated_bytes && text_le(a.path@, b.path@))))
    }

    proof fn total(a: SizedEntry, b: SizedEntry) {
        lemma_text_lt_total(a.path@, b.path@);
    }

    proof fn transitive(a: SizedEntry, b: SizedEntry, c: SizedEntry) {
        if text_le(a.path@, b.path@) && text_le(b.path@, c.path@) {
            lemma_text_le_transitive(a.path@, b.path@, c.path@);
        }
    }

    fn may_precede(a: &SizedEntry, b: &SizedEntry) -> bool {
        if a.bytes != b.bytes {
            a.bytes < b.bytes
        } else if a.allocated_bytes != b.allocated_bytes {
            a.allocated_bytes < b.allocated_bytes
        } else {
            let later = text_before(b.path.as_str(), a.path.as_str());
            proof {
                lemma_text_lt_total(a.path@, b.path@);
                if later {
                    lemma_text_lt_asymmetric(b.path@, a.path@);
                }
            }
            !later
        }
    }
}

/// At most `limit` entries, the smallest first.
#[derive(Debug, PartialEq, Eq)]
pub struct TopList {
    limit: usize,
    entries: Vec<SizedEntry>,
}

/// The entries kept once one more has been offered.
pub open spec fn offered(limit: nat, kept: Seq<SizedEntry>, entry: SizedEntry) -> Seq<SizedEntry> {
    let all = placed::<SizedEntry, BySize>(kept, entry);
    if limit == 0 {
        kept
    } else if all.len() > limit {
        all.drop_first()
    } else {
        all
    }
}

/// The entries kept once a list has been offered.
pub open spec fn offered_all(limit: nat, kept: Seq<SizedEntry>, list: Seq<SizedEntry>) -> Seq<
    SizedEntry,
>
    decreases list.len(),
{
    if list.len() == 0 {
        kept
    } else {
        offered(limit, offered_all(limit, kept, list.drop_last()), list.last())
    }
}

/// The `limit` largest entries, the smallest of them first.
pub open spec fn largest(limit: nat, list: Seq<SizedEntry>) -> Seq<SizedEntry> {
    let all = sorted::<SizedEntry, BySize>(list);
    if all.len() > limit {
        all.skip(all.len() - limit)
    } else {
        all
    }
}

impl TopList {
    /// How many entries are kept.
    pub closed spec fn limit(&self) -> nat {
        self.limit as nat
    }

    /// The entries, the smallest first.
    pub closed spec fn entries(&self) -> Seq<SizedEntry> {
        self.entries@
    }

    /// No more than the limit, and in order.
    pub open spec fn wf(&self) -> bool {
        &&& self.entries().len() <= self.limit()
        &&& in_order::<SizedEntry, BySize>(self.entries())
    }

    /// An empty list.
    pub fn new(limit: usize) -> (r: Self)
        ensures
            r.wf(),
            r.limit() == limit,
            r.entries() == Seq::<SizedEntry>::empty(),
    {
        TopList { limit, entries: Vec::new() }
    }

    /// Offers an entry: where the list is full its smallest entry leaves.
    pub fn push(&mut self, entry: SizedEntry)
        requires
            old(self).wf(),
        ensures
            final(self).wf(),
            final(self).limit() == old(self).limit(),
            final(self).entries() == offered(old(self).limit(), old(self).entries(), entry),
    {
        let ghost kept = self.entries@;
        proof {
            lemma_offered_wf(self.limit as nat, kept, entry);
        }
        if self.limit == 0 {
            return;
        }
        if self.entries.len() == self.limit && !BySize::may_precede(&self.entries[0], &entry) {
            proof {
                lemma_placed_first(kept, entry);
                assert(seq![entry].add(kept).drop_first() =~= kept);
            }
            return;
        }
        place::<SizedEntry, BySize>(&mut self.entries, entry);
        proof {
            lemma_placed::<SizedEntry, BySize>(kept, entry);
        }
        if self.entries.len() > self.limit {
            self.entries.remove(0);
            assert(self.entries@ =~= placed::<SizedEntry, BySize>(kept, entry).drop_first());
        }
    }

    /// Offers the entries of a list, one after the other.
    pub fn extend(&mut self, list: Vec<SizedEntry>)
        requires
            old(self).wf(),
        ensures
            final(self).wf(),
            final(self).limit() == old(self).limit(),
            final(self).entries() == offered_all(old(self).limit(), old(self).entries(), list@),
    {
        let ghost limit = self.limit();
        let ghost start = self.entries();
        for i in 0..list.len()
            invariant
                self.wf(),
                self.limit() == limit,
                self.entries() == offered_all(limit, start, list@.take(i as int)),
        {
            assert(list@.take(i + 1).drop_last() == list@.take(i as int));
            self.push(list[i].clone());
        }
        assert(list@.take(list@.len() as int) == list@);
    }

    /// The entries as they are shown: larger files first, then by path.
    pub fn into_sorted_vec(self) -> (r: Vec<SizedEntry>)
        ensures
            r@ == sorted::<SizedEntry, FileRank>(self.entries()),
    {
        sort::<SizedEntry, FileRank>(self.entries)
    }
}

/// An entry that no other may precede is placed before all of them.
proof fn lemma_placed_first(kept: Seq<SizedEntry>, entry: SizedEntry)
    requires
        in_order::<SizedEntry, BySize>(kept),
        kept.len() > 0,
        !BySize::le(kept[0], entry),
    ensures
        placed::<SizedEntry, BySize>(kept, entry) == seq![entry] + kept,
    decreases kept.len(),
{
    let last = kept.len() - 1;
    assert(BySize::le(kept[0], kept[last]));
    if BySize::le(kept.last(), entry) {
        BySize::transitive(kept[0], kept.last(), entry);
    }
    let init = kept.drop_last();
    if init.len() > 0 {
        assert forall|i: int, j: int| 0 <= i <= j < init.len() implies BySize::le(
            #[trigger] init[i],
            #[trigger] init[j],
        ) by {
            assert(BySize::le(kept[i], kept[j]));
        }
        lemma_placed_first(init, entry);
    } else {
        assert(placed::<SizedEntry, BySize>(init, entry) =~= seq![entry]);
    }
    assert((seq![entry] + init).push(kept.last()) =~= seq![entry] + kept);
}

proof fn lemma_offered_wf(limit: nat, kept: Seq<SizedEntry>, entry: SizedEntry)
    requires
        kept.len() <= limit,
        in_order::<SizedEntry, BySize>(kept),
    ensures
        offered(limit, kept, entry).len() <= limit,
        in_order::<SizedEntry, BySize>(offered(limit, kept, entry)),
{
    lemma_placed::<SizedEntry, BySize>(kept, entry);
    let all = placed::<SizedEntry, BySize>(kept, entry);
    let rest = all.drop_first();
    assert forall|i: int, j: int| 0 <= i <= j < rest.len() implies BySize::le(
        #[trigger] rest[i],
        #[trigger] rest[j],
    ) by {
        assert(BySize::le(all[i + 1], all[j + 1]));
    }
}

/// Placing an entry and dropping the first is placing it after the first was
/// dropped, and dropping the first again where the list is too long.
proof fn lemma_placed_tail(s: Seq<SizedEntry>, k: int, entry: SizedEntry)
    requires
        in_order::<SizedEntry, BySize>(s),
        0 <= k <= s.len(),
    ensures
        placed::<SizedEntry, BySize>(s, entry).skip(k + 1) == placed::<SizedEntry, BySize>(
            s.skip(k),
            entry,
        ).drop_first(),
    decreases s.len(),
{
    lemma_placed::<SizedEntry, BySize>(s, entry);
    lemma_placed::<SizedEntry, BySize>(s.skip(k), entry);
    let tail = s.skip(k);
    let p = placed::<SizedEntry, BySize>(s, entry);
    let q = placed::<SizedEntry, BySize>(tail, entry);
    if s.len() == k {
        assert(q =~= seq![entry]);
        assert(p.skip(k + 1) =~= q.drop_first());
    } else if BySize::le(s.last(), entry) {
        assert(tail.last() == s.last());
        assert(p.skip(k + 1) =~= q.drop_first());
    } else {
        let init = s.drop_last();
        assert(tail.last() == s.last());
        assert(tail.drop_last() =~= init.skip(k));
        assert forall|i: int, j: int| 0 <= i <= j < init.len() implies BySize::le(
            #[trigger] init[i],
            #[trigger] init[j],
        ) by {
            assert(BySize::le(s[i], s[j]));
        }
        lemma_placed_tail(init, k, entry);
        lemma_placed::<SizedEntry, BySize>(init, entry);
        lemma_placed::<SizedEntry, BySize>(init.skip(k), entry);
        let p0 = placed::<SizedEntry, BySize>(init, entry);
        let q0 = placed::<SizedEntry, BySize>(init.skip(k), entry);
        assert(p == p0.push(s.last()));
        assert(q == q0.push(s.last()));
        assert(p.skip(k + 1) =~= p0.skip(k + 1).push(s.last()));
        assert(q.drop_first() =~= q0.drop_first().push(s.last()));
    }
}

/// Offering one more entry to the largest of a list gives the largest of the
/// longer list.
pub proof fn lemma_offered_largest(limit: nat, list: Seq<SizedEntry>, entry: SizedEntry)
    ensures
        offered(limit, largest(limit, list), entry) == largest(limit, list.push(entry)),
{
    let s = sorted::<SizedEntry, BySize>(list);
    let p = placed::<SizedEntry, BySize>(s, entry);
    lemma_sorted::<SizedEntry, BySize>(list);
    lemma_placed::<SizedEntry, BySize>(s, entry);
    assert(list.push(entry).drop_last() == list);
    assert(sorted::<SizedEntry, BySize>(list.push(entry)) == p);
    if s.len() > limit {
        let k = s.len() - limit;
        lemma_placed_tail(s, k, entry);
        lemma_placed::<SizedEntry, BySize>(s.skip(k), entry);
        if limit == 0 {
            assert(largest(limit, list) =~= largest(limit, list.push(entry)));
        }
    } else if s.len() == limit {
        lemma_placed_tail(s, 0, entry);
        assert(s.skip(0) == s);
        if limit == 0 {
            assert(largest(limit, list) =~= largest(limit, list.push(entry)));
        } else {
            assert(p.skip(1) =~= p.drop_first());
        }
    }
}

/// A list that is offered entry by entry keeps the largest ones: what is kept
/// of one list and then offered another is what is largest in both.
pub proof fn law_the_largest_are_kept(limit: nat, list: Seq<SizedEntry>, more: Seq<SizedEntry>)
    ensures
        offered_all(limit, largest(limit, list), more) == largest(limit, list + more),
    decreases more.len(),
{
    if more.len() == 0 {
        assert(list + more == list);
    } else {
        law_the_largest_are_kept(limit, list, more.drop_last());
        lemma_offered_largest(limit, list + more.drop_last(), more.last());
        assert((list + more.drop_last()).push(more.last()) =~= list + more);
    }
}

/// Nothing is larger than what is kept: of a list, as many are kept as fit, the
/// rest may precede every one of them.
pub proof fn law_the_rest_is_smaller(limit: nat, list: Seq<SizedEntry>)
    ensures
        ({
            let kept = largest(limit, list);
            let all = sorted::<SizedEntry, BySize>(list);
            let rest = all.take(all.len() - kept.len());
            &&& kept.len() == vstd::math::min(limit as int, list.len() as int)
            &&& all.to_multiset() == list.to_multiset()
            &&& rest + kept == all
            &&& forall|i: int, j: int|
                0 <= i < rest.len() && 0 <= j < kept.len() ==> BySize::le(
                    #[trigger] rest[i],
                    #[trigger] kept[j],
                )
        }),
{
    lemma_sorted::<SizedEntry, BySize>(list);
    let kept = largest(limit, list);
    let all = sorted::<SizedEntry, BySize>(list);
    let n = all.len() - kept.len();
    let rest = all.take(n);
    assert(rest + kept =~= all);
    assert forall|i: int, j: int| 0 <= i < rest.len() && 0 <= j < kept.len() implies BySize::le(
        #[trigger] rest[i],
        #[trigger] kept[j],
    ) by {
        assert(BySize::le(all[i], all[n + j]));
    }
}

// ---------------------------------------------------------------------------
// The largest of several streams
// ---------------------------------------------------------------------------

/// What an entry is ranked by.
pub open spec fn rank(e: SizedEntry) -> (u64, u64, Seq<char>) {
    (e.bytes, e.allocated_bytes, e.path@)
}

/// What the entries of a list are ranked by.
pub open spec fn ranks(list: Seq<SizedEntry>) -> Seq<(u64, u64, Seq<char>)> {
    list.map_values(|e: SizedEntry| rank(e))
}

proof fn lemma_ranks_push(list: Seq<SizedEntry>, entry: SizedEntry)
    ensures
        ranks(list.push(entry)) == ranks(list).push(rank(entry)),
        ranks(list.push(entry)).to_multiset() == ranks(list).to_multiset().insert(rank(entry)),
{
    broadcast use vstd::seq_lib::group_to_multiset_ensures;

    assert(ranks(list.push(entry)) =~= ranks(list).push(rank(entry)));
}

proof fn lemma_ranks_placed<O: Order<SizedEntry>>(s: Seq<SizedEntry>, x: SizedEntry)
    ensures
        ranks(placed::<SizedEntry, O>(s, x)).to_multiset() == ranks(s).to_multiset().insert(
            rank(x),
        ),
    decreases s.len(),
{
    if s.len() == 0 || O::le(s.last(), x) {
        lemma_ranks_push(s, x);
    } else {
        let init = s.drop_last();
        lemma_ranks_placed::<O>(init, x);
        lemma_ranks_push(placed::<SizedEntry, O>(init, x), s.last());
        lemma_ranks_push(init, s.last());
        assert(s == init.push(s.last()));
        assert(ranks(placed::<SizedEntry, O>(s, x)).to_multiset() =~= ranks(
            s,
        ).to_multiset().insert(rank(x)));
    }
}

/// Sorting keeps the ranks.
pub proof fn lemma_ranks_sorted<O: Order<SizedEntry>>(s: Seq<SizedEntry>)
    ensures
        ranks(sorted::<SizedEntry, O>(s)).to_multiset() == ranks(s).to_multiset(),
    decreases s.len(),
{
    if s.len() > 0 {
        let init = s.drop_last();
        lemma_ranks_sorted::<O>(init);
        lemma_ranks_placed::<O>(sorted::<SizedEntry, O>(init), s.last());
        lemma_ranks_push(init, s.last());
        assert(s == init.push(s.last()));
    }
}

/// Lists one after the other have the ranks of both.
pub proof fn lemma_ranks_added(a: Seq<SizedEntry>, b: Seq<SizedEntry>)
    ensures
        ranks(a + b).to_multiset() == ranks(a).to_multiset().add(ranks(b).to_multiset()),
{
    assert(ranks(a + b) =~= ranks(a) + ranks(b));
    vstd::seq_lib::lemma_multiset_commutative(ranks(a), ranks(b));
}

proof fn lemma_same_rank(a: SizedEntry, b: SizedEntry)
    requires
        BySize::le(a, b),
        BySize::le(b, a),
    ensures
        rank(a) == rank(b),
{
    if text_le(a.path@, b.path@) && text_le(b.path@, a.path@) && a.path@ != b.path@ {
        lemma_text_lt_asymmetric(a.path@, b.path@);
    }
}

/// The last of a list in order is ranked behind every rank in it.
proof fn lemma_last_rank(x: Seq<SizedEntry>, y: Seq<SizedEntry>)
    requires
        in_order::<SizedEntry, BySize>(x),
        y.len() > 0,
        x.len() > 0,
        ranks(x).to_multiset().contains(rank(y.last())),
    ensures
        BySize::le(y.last(), x.last()),
{
    broadcast use vstd::seq_lib::group_to_multiset_ensures;

    let k = choose|k: int| 0 <= k < ranks(x).len() && ranks(x)[k] == rank(y.last());
    assert(ranks(x)[k] == rank(x[k]));
    assert(BySize::le(x[k], x[x.len() - 1]));
}

/// Lists in order with the same ranks have them in the same places.
proof fn lemma_ranks_in_order(x: Seq<SizedEntry>, y: Seq<SizedEntry>)
    requires
        in_order::<SizedEntry, BySize>(x),
        in_order::<SizedEntry, BySize>(y),
        ranks(x).to_multiset() == ranks(y).to_multiset(),
    ensures
        ranks(x) == ranks(y),
    decreases x.len(),
{
    broadcast use vstd::seq_lib::group_to_multiset_ensures;

    assert(ranks(x).to_multiset().len() == x.len());
    assert(ranks(y).to_multiset().len() == y.len());
    if x.len() > 0 {
        let (p, q) = (x.drop_last(), y.drop_last());
        assert(x == p.push(x.last()));
        assert(y == q.push(y.last()));
        lemma_ranks_push(p, x.last());
        lemma_ranks_push(q, y.last());
        lemma_last_rank(x, y);
        lemma_last_rank(y, x);
        lemma_same_rank(x.last(), y.last());
        let r = rank(x.last());
        assert(ranks(p).to_multiset() =~= ranks(x).to_multiset().remove(r));
        assert(ranks(q).to_multiset() =~= ranks(y).to_multiset().remove(r));
        assert forall|i: int, j: int| 0 <= i <= j < p.len() implies BySize::le(
            #[trigger] p[i],
            #[trigger] p[j],
        ) by {
            assert(BySize::le(x[i], x[j]));
        }
        assert forall|i: int, j: int| 0 <= i <= j < q.len() implies BySize::le(
            #[trigger] q[i],
            #[trigger] q[j],
        ) by {
            assert(BySize::le(y[i], y[j]));
        }
        lemma_ranks_in_order(p, q);
    } else {
        assert(ranks(x) =~= ranks(y));
    }
}

/// Which ranks are largest does not depend on the order of a list.
proof fn lemma_largest_ranks(limit: nat, x: Seq<SizedEntry>, y: Seq<SizedEntry>)
    requires
        ranks(x).to_multiset() == ranks(y).to_multiset(),
    ensures
        ranks(largest(limit, x)) == ranks(largest(limit, y)),
{
    let (p, q) = (sorted::<SizedEntry, BySize>(x), sorted::<SizedEntry, BySize>(y));
    lemma_sorted::<SizedEntry, BySize>(x);
    lemma_sorted::<SizedEntry, BySize>(y);
    lemma_ranks_sorted::<BySize>(x);
    lemma_ranks_sorted::<BySize>(y);
    lemma_ranks_in_order(p, q);
    assert(p.len() == ranks(p).len() && q.len() == ranks(q).len());
    if p.len() > limit {
        let n = p.len() - limit;
        assert(ranks(p.skip(n)) =~= ranks(p).skip(n));
        assert(ranks(q.skip(n)) =~= ranks(q).skip(n));
    }
}

/// The largest of a list are in order, and are their own largest.
proof fn lemma_largest_of_largest(limit: nat, list: Seq<SizedEntry>)
    ensures
        in_order::<SizedEntry, BySize>(largest(limit, list)),
        largest(limit, list).len() <= limit,
        largest(limit, largest(limit, list)) == largest(limit, list),
{
    let all = sorted::<SizedEntry, BySize>(list);
    let kept = largest(limit, list);
    lemma_sorted::<SizedEntry, BySize>(list);
    assert forall|i: int, j: int| 0 <= i <= j < kept.len() implies BySize::le(
        #[trigger] kept[i],
        #[trigger] kept[j],
    ) by {
        let n = all.len() - kept.len();
        assert(BySize::le(all[n + i], all[n + j]));
    }
    lemma_sorted_in_order::<SizedEntry, BySize>(kept);
}

/// The largest of two streams can be found from the largest of each: the ranks
/// kept are those of the largest in both.
pub proof fn law_largest_of_the_largest(limit: nat, a: Seq<SizedEntry>, b: Seq<SizedEntry>)
    ensures
        ranks(largest(limit, largest(limit, a) + largest(limit, b))) == ranks(
            largest(limit, a + b),
        ),
{
    let (x, y) = (largest(limit, a), largest(limit, b));
    lemma_largest_of_largest(limit, a);
    lemma_largest_of_largest(limit, b);
    law_the_largest_are_kept(limit, x, y);
    law_the_largest_are_kept(limit, a, y);
    assert(largest(limit, x + y) == largest(limit, a + y));
    lemma_ranks_added(a, y);
    lemma_ranks_added(y, a);
    assert(ranks(a + y).to_multiset() =~= ranks(y + a).to_multiset());
    lemma_largest_ranks(limit, a + y, y + a);
    law_the_largest_are_kept(limit, y, a);
    law_the_largest_are_kept(limit, b, a);
    assert(largest(limit, y + a) == largest(limit, b + a));
    lemma_ranks_added(a, b);
    lemma_ranks_added(b, a);
    assert(ranks(a + b).to_multiset() =~= ranks(b + a).to_multiset());
    lemma_largest_ranks(limit, b + a, a + b);
}

/// Offering to a list that has the ranks of the largest of one stream what has
/// the ranks of the largest of another, in any order, keeps the ranks of the
/// largest of both.
pub proof fn lemma_offered_streams(
    limit: nat,
    kept: Seq<SizedEntry>,
    list: Seq<SizedEntry>,
    a: Seq<SizedEntry>,
    b: Seq<SizedEntry>,
)
    requires
        ranks(kept) == ranks(largest(limit, a)),
        ranks(list).to_multiset() == ranks(largest(limit, b)).to_multiset(),
    ensures
        ranks(offered_all(limit, kept, list)) == ranks(largest(limit, a + b)),
{
    let (x, y) = (largest(limit, a), largest(limit, b));
    lemma_largest_of_largest(limit, a);
    assert(kept.len() == ranks(kept).len() && x.len() == ranks(x).len());
    assert forall|i: int, j: int| 0 <= i <= j < kept.len() implies BySize::le(
        #[trigger] kept[i],
        #[trigger] kept[j],
    ) by {
        assert(BySize::le(x[i], x[j]));
        assert(ranks(kept)[i] == rank(kept[i]) && ranks(kept)[j] == rank(kept[j]));
        assert(ranks(x)[i] == rank(x[i]) && ranks(x)[j] == rank(x[j]));
    }
    lemma_sorted_in_order::<SizedEntry, BySize>(kept);
    law_the_largest_are_kept(limit, kept, list);
    lemma_ranks_added(kept, list);
    lemma_ranks_added(x, y);
    lemma_largest_ranks(limit, kept + list, x + y);
    law_largest_of_the_largest(limit, a, b);
}

} // verus!

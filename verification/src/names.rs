//! A map from text to values, kept in the order of its names.
use crate::text::{
    lemma_text_lt_asymmetric, lemma_text_lt_irreflexive, lemma_text_lt_total,
    lemma_text_lt_transitive, same_text, text_before, text_lt,
};
use vstd::prelude::*;

verus! {

/// A map from names to values. The names stand in strictly increasing order.
#[derive(Debug, PartialEq, Eq)]
pub struct NameMap<V> {
    names: Vec<String>,
    values: Vec<V>,
}

/// Whether a list of texts is strictly increasing.
pub open spec fn increasing(keys: Seq<Seq<char>>) -> bool {
    forall|i: int, j: int|
        0 <= i < j < keys.len() ==> text_lt(#[trigger] keys[i], #[trigger] keys[j])
}

/// Names and values after a name has been given a value: in its place where the
/// name was there, else with the name added.
pub open spec fn stored<V>(
    keys: Seq<Seq<char>>,
    vals: Seq<V>,
    name: Seq<char>,
    value: V,
    new_keys: Seq<Seq<char>>,
    new_vals: Seq<V>,
) -> bool {
    if keys.contains(name) {
        new_keys == keys && new_vals == vals.update(keys.index_of(name), value)
    } else {
        exists|i: int|
            0 <= i <= keys.len() && new_keys == #[trigger] keys.insert(i, name) && new_vals
                == vals.insert(i, value)
    }
}

/// The names of a set in increasing order.
pub open spec fn in_name_order(set: Set<Seq<char>>) -> Seq<Seq<char>> {
    choose|s: Seq<Seq<char>>| increasing(s) && #[trigger] s.to_set() == set
}

/// Two increasing lists of the same names are the same.
proof fn lemma_increasing_unique(a: Seq<Seq<char>>, b: Seq<Seq<char>>)
    requires
        increasing(a),
        increasing(b),
        a.to_set() == b.to_set(),
    ensures
        a == b,
    decreases a.len(),
{
    if a.len() == 0 {
        if b.len() > 0 {
            assert(b.to_set().contains(b[0]));
            assert(a.contains(b[0]));
        }
    } else {
        assert(a.to_set().contains(a.last()));
        assert(b.contains(a.last()));
        let i = choose|i: int| 0 <= i < b.len() && b[i] == a.last();
        assert(b.to_set().contains(b.last()));
        assert(a.contains(b.last()));
        let j = choose|j: int| 0 <= j < a.len() && a[j] == b.last();
        if i < b.len() - 1 {
            assert(text_lt(b[i], b[b.len() - 1]));
            if j < a.len() - 1 {
                assert(text_lt(a[j], a[a.len() - 1]));
                lemma_text_lt_asymmetric(a.last(), b.last());
            } else {
                lemma_text_lt_irreflexive(a.last());
            }
        }
        assert(a.last() == b.last());
        let x = a.drop_last();
        let y = b.drop_last();
        assert forall|i: int, j: int| 0 <= i < j < x.len() implies text_lt(
            #[trigger] x[i],
            #[trigger] x[j],
        ) by {
            assert(text_lt(a[i], a[j]));
        }
        assert forall|i: int, j: int| 0 <= i < j < y.len() implies text_lt(
            #[trigger] y[i],
            #[trigger] y[j],
        ) by {
            assert(text_lt(b[i], b[j]));
        }
        assert forall|k: Seq<char>| x.to_set().contains(k) <==> y.to_set().contains(k) by {
            lemma_text_lt_irreflexive(a.last());
            if x.contains(k) {
                let p = choose|p: int| 0 <= p < x.len() && x[p] == k;
                assert(a[p] == k);
                assert(text_lt(a[p], a[a.len() - 1]));
                assert(a.to_set().contains(k));
                assert(b.contains(k));
                let q = choose|q: int| 0 <= q < b.len() && b[q] == k;
                assert(q < b.len() - 1);
                assert(y[q] == k);
            }
            if y.contains(k) {
                let p = choose|p: int| 0 <= p < y.len() && y[p] == k;
                assert(b[p] == k);
                assert(text_lt(b[p], b[b.len() - 1]));
                assert(b.to_set().contains(k));
                assert(a.contains(k));
                let q = choose|q: int| 0 <= q < a.len() && a[q] == k;
                assert(q < a.len() - 1);
                assert(x[q] == k);
            }
        }
        assert(x.to_set() =~= y.to_set());
        lemma_increasing_unique(x, y);
        assert(a == x.push(a.last()));
        assert(b == y.push(b.last()));
    }
}

/// An increasing list is its own order.
pub proof fn lemma_in_name_order(s: Seq<Seq<char>>)
    requires
        increasing(s),
    ensures
        in_name_order(s.to_set()) == s,
{
    let t = in_name_order(s.to_set());
    assert(increasing(t) && t.to_set() == s.to_set());
    lemma_increasing_unique(s, t);
}

/// An increasing list with one more name.
pub proof fn lemma_increasing_insert(s: Seq<Seq<char>>, x: Seq<char>) -> (t: Seq<Seq<char>>)
    requires
        increasing(s),
    ensures
        increasing(t),
        t.to_set() == s.to_set().insert(x),
    decreases s.len(),
{
    if s.contains(x) {
        assert(s.to_set().insert(x) =~= s.to_set());
        s
    } else if s.len() == 0 || text_lt(s.last(), x) {
        let t = s.push(x);
        assert forall|i: int, j: int| 0 <= i < j < t.len() implies text_lt(
            #[trigger] t[i],
            #[trigger] t[j],
        ) by {
            if j < s.len() {
                assert(text_lt(s[i], s[j]));
            } else if i < s.len() - 1 {
                assert(text_lt(s[i], s[s.len() - 1]));
                lemma_text_lt_transitive(s[i], s.last(), x);
            }
        }
        lemma_push_set(s, x);
        t
    } else {
        let init = s.drop_last();
        assert forall|i: int, j: int| 0 <= i < j < init.len() implies text_lt(
            #[trigger] init[i],
            #[trigger] init[j],
        ) by {
            assert(text_lt(s[i], s[j]));
        }
        let u = lemma_increasing_insert(init, x);
        let t = u.push(s.last());
        assert(s.contains(s.last()));
        lemma_text_lt_total(x, s.last());
        assert forall|i: int, j: int| 0 <= i < j < t.len() implies text_lt(
            #[trigger] t[i],
            #[trigger] t[j],
        ) by {
            if j < u.len() {
                assert(text_lt(u[i], u[j]));
            } else {
                assert(u.to_set().contains(u[i]));
                if u[i] != x {
                    assert(init.to_set().contains(u[i]));
                    let k = choose|k: int| 0 <= k < init.len() && init[k] == u[i];
                    assert(text_lt(s[k], s[s.len() - 1]));
                }
            }
        }
        lemma_push_set(u, s.last());
        lemma_push_set(init, s.last());
        assert(s == init.push(s.last()));
        assert(t.to_set() =~= s.to_set().insert(x));
        t
    }
}

proof fn lemma_push_set(s: Seq<Seq<char>>, x: Seq<char>)
    ensures
        s.push(x).to_set() == s.to_set().insert(x),
{
    let t = s.push(x);
    assert forall|k: Seq<char>| t.to_set().contains(k) <==> s.to_set().insert(x).contains(k) by {
        if s.contains(k) {
            let i = choose|i: int| 0 <= i < s.len() && s[i] == k;
            assert(t[i] == k);
        }
        assert(t[s.len() as int] == x);
        if t.contains(k) && k != x {
            let i = choose|i: int| 0 <= i < t.len() && t[i] == k;
            assert(s[i] == k);
        }
    }
    assert(t.to_set() =~= s.to_set().insert(x));
}

impl<V> NameMap<V> {
    /// The names stand in the order of their set.
    pub proof fn lemma_keys(&self)
        requires
            self.wf(),
        ensures
            self.keys() == in_name_order(self.map().dom()),
    {
        lemma_in_name_order(self.keys());
        assert(self.map().dom() =~= self.keys().to_set());
    }

    /// The names in order.
    pub closed spec fn keys(&self) -> Seq<Seq<char>> {
        self.names@.map_values(|s: String| s@)
    }

    /// The values, in the order of their names.
    pub closed spec fn vals(&self) -> Seq<V> {
        self.values@
    }

    /// Every name has a value, and the names are strictly increasing.
    pub open spec fn wf(&self) -> bool {
        &&& self.keys().len() == self.vals().len()
        &&& increasing(self.keys())
    }

    /// The map from names to values.
    pub open spec fn map(&self) -> Map<Seq<char>, V> {
        Map::new(
            |k: Seq<char>| self.keys().contains(k),
            |k: Seq<char>| self.vals()[self.keys().index_of(k)],
        )
    }

    /// The value at a position is that of the name at that position.
    pub proof fn lemma_at(&self, i: int)
        requires
            self.wf(),
            0 <= i < self.keys().len(),
        ensures
            self.map().contains_key(self.keys()[i]),
            self.map()[self.keys()[i]] == self.vals()[i],
            self.keys().index_of(self.keys()[i]) == i,
    {
        let k = self.keys()[i];
        let j = self.keys().index_of(k);
        assert(self.keys().contains(k));
        assert(self.keys()[j] == k);
        lemma_text_lt_irreflexive(k);
        if i < j {
            assert(text_lt(self.keys()[i], self.keys()[j]));
        }
        if j < i {
            assert(text_lt(self.keys()[j], self.keys()[i]));
        }
    }

    /// The map without names.
    pub fn new() -> (r: Self)
        ensures
            r.wf(),
            r.keys() == Seq::<Seq<char>>::empty(),
            r.vals() == Seq::<V>::empty(),
            r.map() == Map::<Seq<char>, V>::empty(),
    {
        let r = NameMap { names: Vec::new(), values: Vec::new() };
        assert(r.keys() =~= Seq::<Seq<char>>::empty());
        assert(r.map() =~= Map::<Seq<char>, V>::empty());
        r
    }

    /// The number of names.
    pub fn len(&self) -> (r: usize)
        ensures
            r == self.keys().len(),
    {
        self.names.len()
    }

    /// The name at a position.
    pub fn name_at(&self, i: usize) -> (r: &String)
        requires
            i < self.keys().len(),
        ensures
            r@ == self.keys()[i as int],
    {
        &self.names[i]
    }

    /// The value at a position.
    pub fn value_at(&self, i: usize) -> (r: &V)
        requires
            i < self.vals().len(),
        ensures
            *r == self.vals()[i as int],
    {
        &self.values[i]
    }

    /// The position of the first name that does not come before `name`.
    fn place_of(&self, name: &str) -> (r: usize)
        requires
            self.wf(),
        ensures
            r <= self.keys().len(),
            forall|i: int| 0 <= i < r ==> text_lt(#[trigger] self.keys()[i], name@),
            forall|i: int|
                r <= i < self.keys().len() ==> !text_lt(#[trigger] self.keys()[i], name@),
    {
        let mut lo: usize = 0;
        let mut hi: usize = self.names.len();
        while lo < hi
            invariant
                self.wf(),
                lo <= hi <= self.keys().len(),
                forall|i: int| 0 <= i < lo ==> text_lt(#[trigger] self.keys()[i], name@),
                forall|i: int|
                    hi <= i < self.keys().len() ==> !text_lt(#[trigger] self.keys()[i], name@),
            decreases hi - lo,
        {
            let mid: usize = lo + (hi - lo) / 2;
            let before = text_before(self.names[mid].as_str(), name);
            assert(self.keys()[mid as int] == self.names@[mid as int]@);
            if before {
                assert forall|i: int| 0 <= i < mid + 1 implies text_lt(
                    #[trigger] self.keys()[i],
                    name@,
                ) by {
                    if i < mid {
                        lemma_text_lt_transitive(self.keys()[i], self.keys()[mid as int], name@);
                    }
                }
                lo = mid + 1;
            } else {
                assert forall|i: int| mid <= i < self.keys().len() implies !text_lt(
                    #[trigger] self.keys()[i],
                    name@,
                ) by {
                    if mid < i && text_lt(self.keys()[i], name@) {
                        lemma_text_lt_transitive(self.keys()[mid as int], self.keys()[i], name@);
                    }
                }
                hi = mid;
            }
        }
        lo
    }

    /// The position of a name.
    pub fn find(&self, name: &str) -> (r: Option<usize>)
        requires
            self.wf(),
        ensures
            match r {
                Some(i) => i < self.keys().len() && self.keys()[i as int] == name@
                    && self.map().contains_key(name@) && self.map()[name@]
                    == self.vals()[i as int],
                None => !self.map().contains_key(name@),
            },
    {
        let at = self.place_of(name);
        if at < self.names.len() && same_text(self.names[at].as_str(), name) {
            proof {
                assert(self.keys()[at as int] == self.names@[at as int]@);
                self.lemma_at(at as int);
            }
            Some(at)
        } else {
            proof {
                if self.keys().contains(name@) {
                    let j = self.keys().index_of(name@);
                    lemma_text_lt_irreflexive(name@);
                    assert(at <= j);
                    assert(self.keys()[at as int] == self.names@[at as int]@);
                    assert(!text_lt(self.keys()[at as int], name@));
                    if at < j {
                        assert(text_lt(self.keys()[at as int], self.keys()[j]));
                    }
                }
            }
            None
        }
    }

    /// The value of a name.
    pub fn get(&self, name: &str) -> (r: Option<&V>)
        requires
            self.wf(),
        ensures
            r == (if self.map().contains_key(name@) {
                Some(&self.map()[name@])
            } else {
                None
            }),
    {
        match self.find(name) {
            Some(i) => Some(&self.values[i]),
            None => None,
        }
    }

    /// Whether a name is present.
    pub fn contains_key(&self, name: &str) -> (r: bool)
        requires
            self.wf(),
        ensures
            r == self.map().contains_key(name@),
    {
        self.find(name).is_some()
    }

    /// Gives a name a value.
    pub fn insert(&mut self, name: String, value: V)
        requires
            old(self).wf(),
        ensures
            final(self).wf(),
            final(self).map() == old(self).map().insert(name@, value),
            stored(
                old(self).keys(),
                old(self).vals(),
                name@,
                value,
                final(self).keys(),
                final(self).vals(),
            ),
    {
        let ghost before = *self;
        let at = self.place_of(name.as_str());
        if at < self.names.len() && same_text(self.names[at].as_str(), name.as_str()) {
            self.values[at] = value;
            proof {
                assert(before.keys()[at as int] == before.names@[at as int]@);
                assert(self.keys() == before.keys());
                assert(before.keys().contains(name@));
                before.lemma_at(at as int);
                assert(self.vals() == before.vals().update(at as int, value));
                assert(self.map() =~= before.map().insert(name@, value)) by {
                    assert forall|k: Seq<char>| #[trigger] self.map().contains_key(k) implies
                        self.map()[k] == before.map().insert(name@, value)[k] by {
                        let j = self.keys().index_of(k);
                        self.lemma_at(at as int);
                        before.lemma_at(at as int);
                        self.lemma_at(j);
                        before.lemma_at(j);
                    }
                }
            }
        } else {
            let ghost key = name@;
            self.names.insert(at, name);
            self.values.insert(at, value);
            proof {
                let old_keys = before.keys();
                let keys = self.keys();
                assert(keys =~= old_keys.insert(at as int, key));
                assert forall|i: int| at <= i < old_keys.len() implies text_lt(
                    key,
                    #[trigger] old_keys[i],
                ) by {
                    lemma_text_lt_total(old_keys[i], key);
                    assert(old_keys[i] == before.names@[i]@);
                    assert(old_keys[at as int] == before.names@[at as int]@);
                    if at < i {
                        lemma_text_lt_total(old_keys[at as int], key);
                        assert(text_lt(old_keys[at as int], old_keys[i]));
                        if old_keys[i] == key {
                            assert(!text_lt(old_keys[at as int], key));
                        }
                    }
                }
                assert forall|i: int, j: int| 0 <= i < j < keys.len() implies text_lt(
                    #[trigger] keys[i],
                    #[trigger] keys[j],
                ) by {
                    if i < at && j > at {
                        assert(text_lt(old_keys[i], old_keys[j - 1]));
                    } else if i > at {
                        assert(text_lt(old_keys[i - 1], old_keys[j - 1]));
                    } else if j < at {
                        assert(text_lt(old_keys[i], old_keys[j]));
                    } else if j == at {
                        assert(text_lt(old_keys[i], key));
                    } else {
                        assert(text_lt(key, old_keys[j - 1]));
                    }
                }
                assert(self.wf());
                assert(keys[at as int] == key);
                assert(!old_keys.contains(key)) by {
                    if old_keys.contains(key) {
                        let j = old_keys.index_of(key);
                        lemma_text_lt_irreflexive(key);
                        if j < at {
                            assert(text_lt(old_keys[j], key));
                        }
                    }
                }
                assert(self.vals() =~= before.vals().insert(at as int, value));
                assert forall|k: Seq<char>| keys.contains(k) <==> (old_keys.contains(k) || k
                    == key) by {
                    if old_keys.contains(k) {
                        let j = old_keys.index_of(k);
                        if j < at {
                            assert(keys[j] == k);
                        } else {
                            assert(keys[j + 1] == k);
                        }
                    }
                    if keys.contains(k) {
                        let j = keys.index_of(k);
                        if j < at {
                            assert(old_keys[j] == k);
                        } else if j > at {
                            assert(old_keys[j - 1] == k);
                        }
                    }
                }
                assert forall|k: Seq<char>| #[trigger] self.map().contains_key(k) implies
                    self.map()[k] == before.map().insert(key, value)[k] by {
                    let j = keys.index_of(k);
                    self.lemma_at(j);
                    self.lemma_at(at as int);
                    if j < at {
                        before.lemma_at(j);
                        lemma_text_lt_asymmetric(keys[j], key);
                    } else if j > at {
                        before.lemma_at(j - 1);
                        lemma_text_lt_asymmetric(key, keys[j]);
                    }
                }
                assert(self.map() =~= before.map().insert(key, value));
            }
        }
    }

    /// The values, in the order of their names.
    pub fn into_values(self) -> (r: Vec<V>)
        ensures
            r@ == self.vals(),
    {
        self.values
    }

    /// Takes a name out.
    pub fn remove(&mut self, name: &str) -> (r: Option<V>)
        requires
            old(self).wf(),
        ensures
            final(self).wf(),
            final(self).map() == old(self).map().remove(name@),
            r == (if old(self).map().contains_key(name@) {
                Some(old(self).map()[name@])
            } else {
                None
            }),
    {
        let ghost before = *self;
        match self.find(name) {
            None => {
                assert(self.map() =~= before.map().remove(name@));
                None
            },
            Some(at) => {
                self.names.remove(at);
                let value = self.values.remove(at);
                proof {
                    let old_keys = before.keys();
                    let keys = self.keys();
                    before.lemma_at(at as int);
                    assert(keys =~= old_keys.remove(at as int));
                    assert forall|i: int, j: int| 0 <= i < j < keys.len() implies text_lt(
                        #[trigger] keys[i],
                        #[trigger] keys[j],
                    ) by {
                        let a = if i < at { i } else { i + 1 };
                        let b = if j < at { j } else { j + 1 };
                        assert(text_lt(old_keys[a], old_keys[b]));
                    }
                    assert forall|k: Seq<char>| keys.contains(k) <==> (old_keys.contains(k) && k
                        != name@) by {
                        if keys.contains(k) {
                            let j = keys.index_of(k);
                            let a = if j < at { j } else { j + 1 };
                            assert(old_keys[a] == k);
                            before.lemma_at(a);
                        }
                        if old_keys.contains(k) && k != name@ {
                            let j = old_keys.index_of(k);
                            if j < at {
                                assert(keys[j] == k);
                            } else {
                                assert(keys[j - 1] == k);
                            }
                        }
                    }
                    assert forall|k: Seq<char>| #[trigger] self.map().contains_key(k) implies
                        self.map()[k] == before.map().remove(name@)[k] by {
                        let j = keys.index_of(k);
                        let a = if j < at { j } else { j + 1 };
                        self.lemma_at(j);
                        before.lemma_at(a);
                    }
                    assert(self.map() =~= before.map().remove(name@));
                }
                Some(value)
            },
        }
    }
}

} // verus!

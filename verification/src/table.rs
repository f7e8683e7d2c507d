//! Sets and tables whose entries stand in the order in which they first came in.

use vstd::prelude::*;

verus! {

/// A value that is found again by what it stands for.
pub trait Key: View + Sized {
    /// Whether the two stand for the same.
    fn same(&self, other: &Self) -> (same: bool)
        ensures
            same == (self.view() == other.view()),
    ;
}

impl Key for String {
    fn same(&self, other: &Self) -> (same: bool) {
        *self == *other
    }
}

/// A value that can be kept in a table.
pub trait Value: View + Sized {
    /// What holds of every such value.
    spec fn valid(&self) -> bool;
}

impl Value for String {
    open spec fn valid(&self) -> bool {
        true
    }
}

/// What the elements of a sequence stand for.
pub open spec fn views<T: View>(s: Seq<T>) -> Seq<T::V> {
    s.map_values(|x: T| x@)
}

/// An order once a key came in: a new key goes to the end, a known one keeps its place.
pub open spec fn listed<A>(order: Seq<A>, key: A) -> Seq<A> {
    if order.contains(key) {
        order
    } else {
        order.push(key)
    }
}

/// The position of the first of `keys` that stands for the same as `key`.
fn position<K: Key>(keys: &Vec<K>, key: &K) -> (at: Option<usize>)
    ensures
        at is Some <==> views(keys@).contains(key@),
        at matches Some(i) ==> i < keys.len() && keys[i as int]@ == key@,
{
    let mut i: usize = 0;
    while i < keys.len()
        invariant
            i <= keys.len(),
            forall|j: int| 0 <= j < i ==> keys[j]@ != key@,
        decreases keys.len() - i,
    {
        if keys[i].same(key) {
            assert(views(keys@)[i as int] == key@);
            return Some(i);
        }
        i = i + 1;
    }
    None
}

proof fn lemma_push_view<T: View>(s: Seq<T>, x: T)
    ensures
        views(s.push(x)) == views(s).push(x@),
{
    assert(views(s.push(x)) =~= views(s).push(x@));
}

/// A set that keeps its elements in the order in which they first came in.
pub struct DistinctSet<T> {
    items: Vec<T>,
}

impl<T: Key> View for DistinctSet<T> {
    type V = Set<T::V>;

    closed spec fn view(&self) -> Set<T::V> {
        self.order().to_set()
    }
}

impl<T: Key> DistinctSet<T> {
    /// The elements in the order in which they first came in.
    pub closed spec fn order(self) -> Seq<T::V> {
        views(self.items@)
    }

    /// No element stands in the set twice.
    pub closed spec fn wf(self) -> bool {
        self.order().no_duplicates()
    }

    /// The order lists the elements of the set, each of them once.
    pub proof fn lemma_order(self)
        requires
            self.wf(),
        ensures
            self.order().no_duplicates(),
            self.order().to_set() == self@,
            self.order().len() == self@.len(),
            self@.finite(),
    {
        self.order().unique_seq_to_set();
    }

    /// A set without elements.
    pub fn new() -> (s: Self)
        ensures
            s.wf(),
            s@ == Set::<T::V>::empty(),
            s.order() == Seq::<T::V>::empty(),
    {
        let s = DistinctSet { items: Vec::new() };
        assert(s.order() =~= Seq::empty());
        assert(s.order().to_set() =~= Set::empty());
        s
    }

    /// How many elements the set has.
    pub fn len(&self) -> (n: usize)
        requires
            self.wf(),
        ensures
            n == self@.len(),
    {
        proof {
            self.lemma_order();
        }
        self.items.len()
    }

    /// The elements.
    pub fn items(&self) -> (items: &Vec<T>)
        requires
            self.wf(),
        ensures
            views(items@) == self.order(),
    {
        &self.items
    }

    /// Whether `x` is an element.
    pub fn contains(&self, x: &T) -> (found: bool)
        requires
            self.wf(),
        ensures
            found == self@.contains(x@),
    {
        position(&self.items, x).is_some()
    }

    /// Adds `x`; the set stays as it is when it has it already.
    pub fn insert(&mut self, x: T)
        requires
            old(self).wf(),
        ensures
            final(self).wf(),
            final(self)@ == old(self)@.insert(x@),
            final(self).order() == if old(self)@.contains(x@) {
                old(self).order()
            } else {
                old(self).order().push(x@)
            },
    {
        let ghost before = self.order();
        if position(&self.items, &x).is_none() {
            proof {
                lemma_push_view(self.items@, x);
            }
            self.items.push(x);
            assert(self.order() == before.push(x@));
            assert(before.push(x@).to_set() =~= before.to_set().insert(x@)) by {
                assert forall|y: T::V| before.to_set().insert(x@).contains(y) implies before.push(
                    x@,
                ).to_set().contains(y) by {
                    if y == x@ {
                        assert(before.push(x@)[before.len() as int] == y);
                    } else {
                        let i = choose|i: int| 0 <= i < before.len() && before[i] == y;
                        assert(before.push(x@)[i] == y);
                    }
                }
            }
        } else {
            assert(before.to_set().insert(x@) =~= before.to_set());
        }
    }
}

impl<T: Key> Value for DistinctSet<T> {
    open spec fn valid(&self) -> bool {
        self.wf()
    }
}

/// A table from keys to values; it keeps its keys in the order in which they first came in.
pub struct Table<K, V> {
    keys: Vec<K>,
    values: Vec<V>,
}

/// The map that takes each of `keys` to the value at its place.
spec fn pairing<A, B>(keys: Seq<A>, values: Seq<B>) -> Map<A, B> {
    Map::new(|k: A| keys.contains(k), |k: A| values[keys.index_of(k)])
}

proof fn lemma_pairing_update<A, B>(keys: Seq<A>, values: Seq<B>, i: int, value: B)
    requires
        keys.no_duplicates(),
        keys.len() == values.len(),
        0 <= i < keys.len(),
    ensures
        pairing(keys, values.update(i, value)) == pairing(keys, values).insert(keys[i], value),
{
    let changed = pairing(keys, values.update(i, value));
    let wanted = pairing(keys, values).insert(keys[i], value);
    assert(keys.contains(keys[i]));
    assert(changed.dom() =~= wanted.dom());
    assert forall|k: A| changed.contains_key(k) implies changed[k] == wanted[k] by {
        let j = keys.index_of(k);
        assert(keys[j] == k);
    }
    assert(changed =~= wanted);
}

proof fn lemma_pairing_push<A, B>(keys: Seq<A>, values: Seq<B>, key: A, value: B)
    requires
        keys.no_duplicates(),
        keys.len() == values.len(),
        !keys.contains(key),
    ensures
        keys.push(key).no_duplicates(),
        pairing(keys.push(key), values.push(value)) == pairing(keys, values).insert(key, value),
{
    let longer = keys.push(key);
    let changed = pairing(longer, values.push(value));
    let wanted = pairing(keys, values).insert(key, value);
    assert(longer[keys.len() as int] == key);
    assert forall|k: A| keys.contains(k) implies longer.contains(k) by {
        let j = keys.index_of(k);
        assert(longer[j] == k);
    }
    assert forall|k: A| longer.contains(k) && k != key implies keys.contains(k) by {
        let j = longer.index_of(k);
        assert(keys[j] == k);
    }
    assert(changed.dom() =~= wanted.dom());
    assert forall|k: A| changed.contains_key(k) implies changed[k] == wanted[k] by {
        let j = longer.index_of(k);
        assert(longer[j] == k);
        if k != key {
            let h = keys.index_of(k);
            assert(keys[h] == k);
            assert(longer[h] == k);
        }
    }
    assert(changed =~= wanted);
}

impl<K: Key, V: Value> View for Table<K, V> {
    type V = Map<K::V, V::V>;

    closed spec fn view(&self) -> Map<K::V, V::V> {
        pairing(views(self.keys@), views(self.values@))
    }
}

impl<K: Key, V: Value> Table<K, V> {
    /// The keys in the order in which they first came in.
    pub closed spec fn order(self) -> Seq<K::V> {
        views(self.keys@)
    }

    /// Every key has one value, which is valid, and no key stands in the table twice.
    pub closed spec fn wf(self) -> bool {
        &&& self.keys.len() == self.values.len()
        &&& self.order().no_duplicates()
        &&& forall|i: int| 0 <= i < self.values.len() ==> (#[trigger] self.values[i]).valid()
    }

    /// The order lists the keys of the table, each of them once.
    pub proof fn lemma_order(self)
        requires
            self.wf(),
        ensures
            self.order().no_duplicates(),
            self.order().to_set() == self@.dom(),
            self.order().len() == self@.dom().len(),
            self@.dom().finite(),
    {
        self.order().unique_seq_to_set();
        assert(self.order().to_set() =~= self@.dom());
    }

    proof fn lemma_value(self, i: int)
        requires
            self.wf(),
            0 <= i < self.keys.len(),
        ensures
            self@.contains_key(self.keys[i]@),
            self@[self.keys[i]@] == self.values[i]@,
    {
        let ks = views(self.keys@);
        assert(ks[i] == self.keys[i]@);
        assert(ks.contains(ks[i]));
        assert(ks.index_of(ks[i]) == i);
    }

    /// A table without entries.
    pub fn new() -> (t: Self)
        ensures
            t.wf(),
            t@ == Map::<K::V, V::V>::empty(),
            t.order() == Seq::<K::V>::empty(),
    {
        let t = Table { keys: Vec::new(), values: Vec::new() };
        assert(t.order() =~= Seq::empty());
        assert(t@ =~= Map::empty());
        t
    }

    /// How many keys the table has.
    pub fn len(&self) -> (n: usize)
        requires
            self.wf(),
        ensures
            n == self@.dom().len(),
            n == self.order().len(),
    {
        proof {
            self.lemma_order();
        }
        self.keys.len()
    }

    /// The key at place `i`.
    pub fn key_at(&self, i: usize) -> (k: &K)
        requires
            self.wf(),
            i < self.order().len(),
        ensures
            k@ == self.order()[i as int],
            self@.contains_key(k@),
    {
        proof {
            self.lemma_value(i as int);
        }
        &self.keys[i]
    }

    /// The value that belongs to the key at place `i`.
    pub fn value_at(&self, i: usize) -> (v: &V)
        requires
            self.wf(),
            i < self.order().len(),
        ensures
            v.valid(),
            v@ == self@[self.order()[i as int]],
    {
        proof {
            self.lemma_value(i as int);
        }
        &self.values[i]
    }

    /// Whether `key` has a value.
    pub fn contains_key(&self, key: &K) -> (found: bool)
        requires
            self.wf(),
        ensures
            found == self@.contains_key(key@),
    {
        position(&self.keys, key).is_some()
    }

    /// The value of `key`.
    pub fn get(&self, key: &K) -> (value: Option<&V>)
        requires
            self.wf(),
        ensures
            value is Some <==> self@.contains_key(key@),
            value matches Some(v) ==> v.valid() && v@ == self@[key@],
    {
        match position(&self.keys, key) {
            Some(i) => {
                proof {
                    self.lemma_value(i as int);
                }
                Some(&self.values[i])
            },
            None => None,
        }
    }

    /// The value of `key`, to be changed in place.
    pub fn get_mut(&mut self, key: &K) -> (value: Option<&mut V>)
        requires
            old(self).wf(),
        ensures
            value is Some <==> old(self)@.contains_key(key@),
            value matches Some(v) ==> {
                &&& v.valid()
                &&& v@ == old(self)@[key@]
                &&& final(v).valid() ==> final(self).wf()
                &&& final(self)@ == old(self)@.insert(key@, final(v)@)
                &&& final(self).order() == old(self).order()
            },
            value is None ==> *final(self) == *old(self),
    {
        match position(&self.keys, key) {
            Some(i) => {
                proof {
                    self.lemma_value(i as int);
                    let keys = views(self.keys@);
                    let values = self.values@;
                    assert(keys[i as int] == key@);
                    assert forall|x: V| views(#[trigger] values.update(i as int, x)) == views(
                        values,
                    ).update(i as int, x@) && pairing(keys, views(values).update(i as int, x@))
                        == pairing(keys, views(values)).insert(key@, x@) by {
                        assert(views(values.update(i as int, x)) =~= views(values).update(
                            i as int,
                            x@,
                        ));
                        lemma_pairing_update(keys, views(values), i as int, x@);
                    }
                }
                Some(&mut self.values[i])
            },
            None => None,
        }
    }

    /// Gives `key` a value, in place of the one it had.
    pub fn insert(&mut self, key: K, value: V)
        requires
            old(self).wf(),
            value.valid(),
        ensures
            final(self).wf(),
            final(self)@ == old(self)@.insert(key@, value@),
            final(self).order() == if old(self)@.contains_key(key@) {
                old(self).order()
            } else {
                old(self).order().push(key@)
            },
    {
        match position(&self.keys, &key) {
            Some(i) => {
                proof {
                    let keys = views(self.keys@);
                    let values = views(self.values@);
                    assert(keys[i as int] == key@);
                    lemma_pairing_update(keys, values, i as int, value@);
                    assert(views(self.values@.update(i as int, value)) =~= values.update(
                        i as int,
                        value@,
                    ));
                }
                self.values[i] = value;
            },
            None => {
                proof {
                    lemma_pairing_push(views(self.keys@), views(self.values@), key@, value@);
                    lemma_push_view(self.keys@, key);
                    lemma_push_view(self.values@, value);
                }
                self.keys.push(key);
                self.values.push(value);
            },
        }
    }
}

/// What a sequence stands for has an element for each of its own, in the same place.
pub proof fn law_views_element_by_element<T: View>(s: Seq<T>)
    ensures
        views(s).len() == s.len(),
        forall|i: int| 0 <= i < s.len() ==> #[trigger] views(s)[i] == s[i]@,
{
}

/// A key that came in is in the order; a known one changes nothing, a new one goes to the end.
pub proof fn law_listed_at_the_end<A>(order: Seq<A>, key: A, i: int)
    ensures
        0 <= i < order.len() && order[i] == key ==> listed(order, key) == order,
        (forall|j: int| 0 <= j < order.len() ==> #[trigger] order[j] != key) ==> {
            &&& listed(order, key).len() == order.len() + 1
            &&& listed(order, key).drop_last() == order
            &&& listed(order, key).last() == key
        },
{
    if forall|j: int| 0 <= j < order.len() ==> #[trigger] order[j] != key {
        assert(listed(order, key).drop_last() =~= order);
    }
}

} // verus!

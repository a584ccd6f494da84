//! Maps from output indices to values, walked in ascending order.

use std::collections::BTreeMap;
use vstd::prelude::*;

verus! {

/// Whether each key is greater than those before it.
pub open spec fn is_ascending(keys: Seq<usize>) -> bool {
    forall|i: int, j: int| 0 <= i < j < keys.len() ==> keys[i] < keys[j]
}

/// The keys of a finite set, in ascending order.
pub open spec fn ascending(keys: Set<usize>) -> Seq<usize> {
    choose|order: Seq<usize>| is_ascending(order) && order.to_set() == keys
}

/// There is one ascending order of a set.
pub proof fn lemma_ascending_unique(a: Seq<usize>, b: Seq<usize>)
    requires
        is_ascending(a),
        is_ascending(b),
        a.to_set() == b.to_set(),
    ensures
        a == b,
    decreases a.len(),
{
    assert forall|x: usize| a.contains(x) <==> b.contains(x) by {
        assert(a.to_set().contains(x) <==> a.contains(x));
        assert(b.to_set().contains(x) <==> b.contains(x));
    }
    if a.len() == 0 {
        if b.len() > 0 {
            assert(b.contains(b[0]));
        }
        assert(a =~= b);
    } else {
        assert(a.contains(a.last()));
        let i = choose|i: int| 0 <= i < b.len() && b[i] == a.last();
        assert(b.contains(b.last()));
        let j = choose|j: int| 0 <= j < a.len() && a[j] == b.last();
        assert(a.last() == b.last());
        let c = a.drop_last();
        let d = b.drop_last();
        assert forall|x: usize| c.to_set().contains(x) <==> d.to_set().contains(x) by {
            if c.contains(x) {
                let k = choose|k: int| 0 <= k < c.len() && c[k] == x;
                assert(a[k] == x && x < a.last());
                assert(a.contains(x));
                let m = choose|m: int| 0 <= m < b.len() && b[m] == x;
                assert(d[m] == x);
            }
            if d.contains(x) {
                let k = choose|k: int| 0 <= k < d.len() && d[k] == x;
                assert(b[k] == x && x < b.last());
                assert(b.contains(x));
                let m = choose|m: int| 0 <= m < a.len() && a[m] == x;
                assert(c[m] == x);
            }
        }
        assert(c.to_set() =~= d.to_set());
        lemma_ascending_unique(c, d);
        assert(a =~= c.push(a.last()));
        assert(b =~= d.push(b.last()));
    }
}

/// A key put into its place among ascending keys.
spec fn placed(keys: Seq<usize>, key: usize) -> Seq<usize>
    decreases keys.len(),
{
    if keys.len() == 0 || keys.last() < key {
        keys.push(key)
    } else {
        placed(keys.drop_last(), key).push(keys.last())
    }
}

proof fn lemma_placed(keys: Seq<usize>, key: usize)
    requires
        is_ascending(keys),
        !keys.contains(key),
    ensures
        is_ascending(placed(keys, key)),
        placed(keys, key).to_set() == keys.to_set().insert(key),
    decreases keys.len(),
{
    if keys.len() == 0 || keys.last() < key {
        assert forall|x: usize|
            keys.push(key).to_set().contains(x) <==> keys.to_set().insert(key).contains(x) by {
            if keys.contains(x) {
                let k = choose|k: int| 0 <= k < keys.len() && keys[k] == x;
                assert(keys.push(key)[k] == x);
            }
            assert(keys.push(key)[keys.len() as int] == key);
        }
        assert(keys.push(key).to_set() =~= keys.to_set().insert(key));
    } else {
        let front = keys.drop_last();
        assert(keys.contains(keys.last()));
        assert forall|x: usize| front.contains(x) implies keys.contains(x) && x < keys.last() by {
            let k = choose|k: int| 0 <= k < front.len() && front[k] == x;
            assert(keys[k] == x);
        }
        lemma_placed(front, key);
        let inner = placed(front, key);
        assert forall|i: int| 0 <= i < inner.len() implies inner[i] < keys.last() by {
            assert(inner.to_set().contains(inner[i]));
            assert(front.contains(inner[i]) || inner[i] == key);
        }
        assert forall|x: usize|
            inner.push(keys.last()).to_set().contains(x) <==> keys.to_set().insert(key).contains(
                x,
            ) by {
            if inner.contains(x) {
                assert(inner.to_set().contains(x));
            }
            if keys.contains(x) && x != keys.last() {
                let k = choose|k: int| 0 <= k < keys.len() && keys[k] == x;
                assert(front[k] == x);
            }
            if front.to_set().insert(key).contains(x) {
                assert(inner.to_set().contains(x));
                let k = choose|k: int| 0 <= k < inner.len() && inner[k] == x;
                assert(inner.push(keys.last())[k] == x);
            }
            assert(inner.push(keys.last())[inner.len() as int] == keys.last());
        }
        assert(inner.push(keys.last()).to_set() =~= keys.to_set().insert(key));
    }
}

/// Every finite set of keys has an ascending order.
pub proof fn lemma_ascending(keys: Set<usize>)
    requires
        keys.finite(),
    ensures
        is_ascending(ascending(keys)),
        ascending(keys).to_set() == keys,
    decreases keys.len(),
{
    if keys.len() == 0 {
        let order = Seq::<usize>::empty();
        assert(order.to_set() =~= keys);
        assert(is_ascending(order) && order.to_set() == keys);
    } else {
        let key = keys.choose();
        let rest = keys.remove(key);
        lemma_ascending(rest);
        let order = ascending(rest);
        assert(!order.contains(key)) by {
            assert(!order.to_set().contains(key));
        }
        lemma_placed(order, key);
        assert(rest.insert(key) =~= keys);
        assert(is_ascending(placed(order, key)) && placed(order, key).to_set() == keys);
    }
}

/// A map from output indices to values.
#[derive(Debug)]
pub struct IndexMap<V> {
    map: BTreeMap<usize, V>,
}

impl<V: View> View for IndexMap<V> {
    type V = Map<usize, V::V>;

    closed spec fn view(&self) -> Map<usize, V::V> {
        self.map@.map_values(|value: V| value@)
    }
}

impl<V: View> IndexMap<V> {
    /// The map without entries.
    pub fn new() -> (map: IndexMap<V>)
        ensures
            map@ == Map::<usize, V::V>::empty(),
    {
        let map = IndexMap { map: BTreeMap::new() };
        assert(map@ =~= Map::empty());
        map
    }

    /// Sets the value of an index.
    pub fn insert(&mut self, index: usize, value: V)
        ensures
            final(self)@ == old(self)@.insert(index, value@),
    {
        let ghost before = self@;
        self.map.insert(index, value);
        assert(self@ =~= before.insert(index, value@));
    }

    /// Takes the value of an index out.
    pub fn remove(&mut self, index: usize) -> (value: Option<V>)
        ensures
            final(self)@ == old(self)@.remove(index),
            match value {
                Some(value) => old(self)@.contains_key(index) && old(self)@[index] == value@,
                None => !old(self)@.contains_key(index),
            },
    {
        let ghost before = self@;
        let value = self.map.remove(&index);
        assert(self@ =~= before.remove(index));
        value
    }

    /// The value of an index.
    pub fn get(&self, index: usize) -> (value: Option<&V>)
        ensures
            match value {
                Some(value) => self@.contains_key(index) && self@[index] == value@,
                None => !self@.contains_key(index),
            },
    {
        self.map.get(&index)
    }

    /// Whether the index has a value.
    pub fn contains_key(&self, index: usize) -> (found: bool)
        ensures
            found == self@.contains_key(index),
    {
        self.map.contains_key(&index)
    }

    /// Whether no index has a value.
    pub fn is_empty(&self) -> (empty: bool)
        ensures
            empty == (self@ == Map::<usize, V::V>::empty()),
    {
        let empty = self.map.is_empty();
        proof {
            if empty {
                assert(self@ =~= Map::empty());
            } else {
                assert(exists|index: usize| self.map@.contains_key(index)) by {
                    if forall|index: usize| !self.map@.contains_key(index) {
                        assert(self.map@ =~= Map::empty());
                    }
                }
                let index = choose|index: usize| self.map@.contains_key(index);
                assert(self@.contains_key(index));
            }
        }
        empty
    }

    /// The indices that have a value, in ascending order.
    pub fn keys(&self) -> (keys: Vec<usize>)
        ensures
            self@.dom().finite(),
            keys@ == ascending(self@.dom()),
            is_ascending(keys@),
            keys@.to_set() == self@.dom(),
    {
        broadcast use vstd::laws_cmp::group_laws_cmp;

        let mut keys: Vec<usize> = Vec::new();
        let iter = self.map.iter();
        let ghost pairs = vstd::std_specs::iter::IteratorSpec::remaining(&iter);
        let ghost order = pairs.map_values(|pair: (&usize, &V)| *pair.0);
        proof {
            assert(vstd::laws_cmp::obeys_cmp::<usize>());
            assert(vstd::std_specs::btree::increasing_seq(order));
            assert forall|i: int, j: int| 0 <= i < j < order.len() implies order[i] < order[j] by {
                assert(vstd::std_specs::cmp::OrdSpec::cmp_spec(&order[i], &order[j]) is Less);
            }
        }
        for pair in it: iter
            invariant
                it.seq() == pairs,
                order == pairs.map_values(|pair: (&usize, &V)| *pair.0),
                keys@ == order.take(it.index()),
        {
            keys.push(*pair.0);
        }
        proof {
            assert(keys@ =~= order);
            assert forall|index: usize|
                keys@.to_set().contains(index) <==> self@.dom().contains(index) by {
                if self@.dom().contains(index) {
                    assert(self.map@.contains_key(index));
                    let i = choose|i: int|
                        0 <= i < pairs.len() && pairs[i] == (&index, &self.map@[index]);
                    assert(order[i] == index);
                }
                if keys@.contains(index) {
                    let i = choose|i: int| 0 <= i < keys@.len() && keys@[i] == index;
                    assert(self.map@.contains_key(*pairs[i].0));
                }
            }
            assert(keys@.to_set() =~= self@.dom());
            assert(is_ascending(keys@));
            lemma_ascending_unique(keys@, ascending(self@.dom()));
        }
        keys
    }

    /// The values, in the ascending order of their indices.
    pub fn into_values(self) -> (values: Vec<V>)
        ensures
            self@.dom().finite(),
            values@.map_values(|value: V| value@) == ascending(self@.dom()).map_values(
                |index: usize| self@[index],
            ),
    {
        let keys = self.keys();
        let ghost all = self@;
        let mut map = self;
        let mut values: Vec<V> = Vec::new();
        let mut i: usize = 0;
        while i < keys.len()
            invariant
                i <= keys@.len(),
                keys@ == ascending(all.dom()),
                is_ascending(keys@),
                keys@.to_set() == all.dom(),
                forall|j: int| i <= j < keys@.len() ==> #[trigger] map@.contains_key(keys@[j]),
                forall|j: int| i <= j < keys@.len() ==> map@[#[trigger] keys@[j]] == all[keys@[j]],
                values@.len() == i,
                forall|j: int| 0 <= j < i ==> (#[trigger] values@[j])@ == all[keys@[j]],
            decreases keys@.len() - i,
        {
            assert(map@.contains_key(keys@[i as int]));
            match map.remove(keys[i]) {
                Some(value) => {
                    values.push(value);
                },
                None => {},
            }
            i += 1;
        }
        assert(values@.map_values(|value: V| value@) =~= ascending(all.dom()).map_values(
            |index: usize| all[index],
        ));
        values
    }
}

} // verus!

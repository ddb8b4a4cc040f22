//! A small keyed table: strings mapped to values, each key at most once,
//! in the order in which the keys first came.
//!
//! A key is found by comparing it with the keys in turn. That keeps the table
//! free of any assumption about hashing or ordering of strings, at the price
//! of lookups that take time in proportion to the number of keys.

use vstd::prelude::*;

verus! {

/// The map that a list of keys and a list of values stand for: the key at
/// each position is mapped to the value at that position.
pub open spec fn pairs_map<T>(keys: Seq<Seq<char>>, values: Seq<T>) -> Map<Seq<char>, T> {
    Map::new(|k: Seq<char>| keys.contains(k), |k: Seq<char>| values[keys.index_of(k)])
}

/// Where no key occurs twice, a key's position is the one place it stands at.
pub proof fn lemma_pairs_lookup<T>(keys: Seq<Seq<char>>, values: Seq<T>, i: int)
    requires
        keys.no_duplicates(),
        0 <= i < keys.len(),
    ensures
        keys.index_of(keys[i]) == i,
        pairs_map(keys, values).contains_key(keys[i]),
        pairs_map(keys, values)[keys[i]] == values[i],
{
    let j = keys.index_of(keys[i]);
    assert(0 <= j < keys.len() && keys[j] == keys[i]);
}

/// Appending a key that is new, with its value, inserts that pair into the map.
pub proof fn lemma_pairs_push<T>(keys: Seq<Seq<char>>, values: Seq<T>, k: Seq<char>, v: T)
    requires
        keys.no_duplicates(),
        keys.len() == values.len(),
        !keys.contains(k),
    ensures
        keys.push(k).no_duplicates(),
        pairs_map(keys.push(k), values.push(v)) == pairs_map(keys, values).insert(k, v),
{
    let keys2 = keys.push(k);
    let values2 = values.push(v);
    assert forall|i: int, j: int| 0 <= i < keys2.len() && 0 <= j < keys2.len() && i != j implies keys2[i]
        != keys2[j] by {
        if i < keys.len() {
            assert(keys.contains(keys[i]));
        }
        if j < keys.len() {
            assert(keys.contains(keys[j]));
        }
    }
    let left = pairs_map(keys2, values2);
    let right = pairs_map(keys, values).insert(k, v);
    assert forall|q: Seq<char>| left.contains_key(q) <==> right.contains_key(q) by {
        if keys2.contains(q) {
            let i = choose|i: int| 0 <= i < keys2.len() && keys2[i] == q;
            if i < keys.len() {
                assert(keys[i] == q);
            }
        }
        if keys.contains(q) {
            let i = choose|i: int| 0 <= i < keys.len() && keys[i] == q;
            assert(keys2[i] == q);
        }
        if q == k {
            assert(keys2[keys.len() as int] == q);
        }
    }
    assert forall|q: Seq<char>| left.contains_key(q) implies left[q] == right[q] by {
        let i = keys2.index_of(q);
        assert(0 <= i < keys2.len() && keys2[i] == q);
        lemma_pairs_lookup(keys2, values2, i);
        if i < keys.len() {
            assert(keys[i] == q);
            lemma_pairs_lookup(keys, values, i);
        }
    }
    assert(left =~= right);
}

/// Replacing the value at a key's position replaces the value under that key.
pub proof fn lemma_pairs_update<T>(keys: Seq<Seq<char>>, values: Seq<T>, i: int, v: T)
    requires
        keys.no_duplicates(),
        keys.len() == values.len(),
        0 <= i < keys.len(),
    ensures
        pairs_map(keys, values.update(i, v)) == pairs_map(keys, values).insert(keys[i], v),
{
    let left = pairs_map(keys, values.update(i, v));
    let right = pairs_map(keys, values).insert(keys[i], v);
    assert(keys.contains(keys[i]));
    assert forall|q: Seq<char>| left.contains_key(q) implies left[q] == right[q] by {
        let j = keys.index_of(q);
        assert(0 <= j < keys.len() && keys[j] == q);
    }
    assert(left =~= right);
}

/// Taking one more key and value into account inserts that pair.
pub proof fn lemma_pairs_take<T>(keys: Seq<Seq<char>>, values: Seq<T>, i: int)
    requires
        keys.no_duplicates(),
        keys.len() == values.len(),
        0 <= i < keys.len(),
    ensures
        pairs_map(keys.take(i + 1), values.take(i + 1)) == pairs_map(
            keys.take(i),
            values.take(i),
        ).insert(keys[i], values[i]),
{
    let front = keys.take(i);
    assert(keys.take(i + 1) =~= front.push(keys[i]));
    assert(values.take(i + 1) =~= values.take(i).push(values[i]));
    if front.contains(keys[i]) {
        let j = choose|j: int| 0 <= j < front.len() && front[j] == keys[i];
        assert(keys[j] == keys[i]);
    }
    lemma_pairs_push(front, values.take(i), keys[i], values[i]);
}

/// The map has exactly the listed keys: as many as the list is long, where no
/// key occurs twice.
pub proof fn lemma_pairs_domain<T>(keys: Seq<Seq<char>>, values: Seq<T>)
    requires
        keys.no_duplicates(),
    ensures
        pairs_map(keys, values).dom() == keys.to_set(),
        pairs_map(keys, values).dom().finite(),
        pairs_map(keys, values).dom().len() == keys.len(),
{
    assert(pairs_map(keys, values).dom() =~= keys.to_set());
    keys.unique_seq_to_set();
    vstd::seq_lib::seq_to_set_is_finite(keys);
}

/// A table from strings to values. A key stands in it at most once; putting a
/// value under a key that is there already replaces the value and leaves the
/// key where it was.
#[derive(Clone, Debug)]
pub struct Table<T> {
    keys: Vec<String>,
    values: Vec<T>,
}

impl<T> View for Table<T> {
    type V = Map<Seq<char>, T>;

    /// The table as a map from keys to values.
    open spec fn view(&self) -> Map<Seq<char>, T> {
        pairs_map(self.key_seq(), self.value_seq())
    }
}

impl<T> Table<T> {
    /// What holds of every table: each key has its value, and no key stands
    /// in it twice.
    pub closed spec fn wf(&self) -> bool {
        &&& self.keys@.len() == self.values@.len()
        &&& self.keys.deep_view().no_duplicates()
    }

    /// The keys, in the order in which they first came.
    pub closed spec fn key_seq(&self) -> Seq<Seq<char>> {
        self.keys.deep_view()
    }

    /// The values, each at the position of its key.
    pub closed spec fn value_seq(&self) -> Seq<T> {
        self.values@
    }

    /// An empty table.
    pub fn new() -> (table: Self)
        ensures
            table.wf(),
            table@ == Map::<Seq<char>, T>::empty(),
            table.key_seq() == Seq::<Seq<char>>::empty(),
            table.value_seq() == Seq::<T>::empty(),
    {
        let table = Table { keys: Vec::new(), values: Vec::new() };
        assert(table.key_seq() =~= Seq::<Seq<char>>::empty());
        assert(table@ =~= Map::<Seq<char>, T>::empty());
        table
    }

    /// The number of keys.
    pub fn len(&self) -> (n: usize)
        requires
            self.wf(),
        ensures
            n == self.key_seq().len(),
            n == self.value_seq().len(),
            self.key_seq().no_duplicates(),
            self@.dom().finite(),
            n == self@.dom().len(),
    {
        proof {
            lemma_pairs_domain(self.key_seq(), self.value_seq());
        }
        self.keys.len()
    }

    /// The position at which `key` stands, if it is in the table.
    pub fn find(&self, key: &str) -> (found: Option<usize>)
        requires
            self.wf(),
        ensures
            match found {
                Some(i) => i < self.key_seq().len() && self.key_seq()[i as int] == key@,
                None => !self.key_seq().contains(key@),
            },
            found is Some <==> self@.contains_key(key@),
    {
        let mut i: usize = 0;
        while i < self.keys.len()
            invariant
                i <= self.keys@.len(),
                forall|j: int| 0 <= j < i ==> self.key_seq()[j] != key@,
            decreases self.keys@.len() - i,
        {
            if self.keys[i].as_str().eq(key) {
                assert(self.key_seq()[i as int] == key@);
                assert(self.key_seq().contains(key@));
                return Some(i);
            }
            i += 1;
        }
        None
    }

    /// The value under `key`, if there is one.
    pub fn get(&self, key: &str) -> (value: Option<&T>)
        requires
            self.wf(),
        ensures
            match value {
                Some(v) => self@.contains_key(key@) && *v == self@[key@],
                None => !self@.contains_key(key@),
            },
    {
        match self.find(key) {
            Some(i) => {
                proof {
                    lemma_pairs_lookup(self.key_seq(), self.value_seq(), i as int);
                }
                Some(&self.values[i])
            },
            None => None,
        }
    }

    /// The key at position `i`.
    pub fn key_at(&self, i: usize) -> (key: &String)
        requires
            self.wf(),
            i < self.key_seq().len(),
        ensures
            key@ == self.key_seq()[i as int],
            self@.contains_key(key@),
    {
        proof {
            lemma_pairs_lookup(self.key_seq(), self.value_seq(), i as int);
        }
        &self.keys[i]
    }

    /// The value at position `i`: the value under the key at that position.
    pub fn value_at(&self, i: usize) -> (value: &T)
        requires
            self.wf(),
            i < self.key_seq().len(),
        ensures
            *value == self.value_seq()[i as int],
            *value == self@[self.key_seq()[i as int]],
    {
        proof {
            lemma_pairs_lookup(self.key_seq(), self.value_seq(), i as int);
        }
        &self.values[i]
    }

    /// Puts `value` under `key`. A value that was there before is replaced:
    /// the last write wins, and nothing else in the table changes.
    pub fn insert(&mut self, key: String, value: T)
        requires
            old(self).wf(),
        ensures
            final(self).wf(),
            final(self)@ == old(self)@.insert(key@, value),
            old(self)@.contains_key(key@) ==> final(self).key_seq() == old(self).key_seq(),
            !old(self)@.contains_key(key@) ==> final(self).key_seq() == old(self).key_seq().push(
                key@,
            ),
    {
        match self.find(key.as_str()) {
            Some(i) => {
                proof {
                    lemma_pairs_update(self.key_seq(), self.value_seq(), i as int, value);
                }
                self.values.set(i, value);
            },
            None => {
                proof {
                    lemma_pairs_push(self.key_seq(), self.value_seq(), key@, value);
                }
                let ghost before = self.keys.deep_view();
                self.keys.push(key);
                self.values.push(value);
                assert(self.keys.deep_view() =~= before.push(key@));
            },
        }
    }
}

} // verus!

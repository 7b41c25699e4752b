//! A table keyed by hashes.

use crate::u256::lemma_u256_injective;
use vstd::prelude::*;

verus! {

/// Whether keys are listed in ascending order, each once.
pub open spec fn ascending(keys: Seq<crate::sha256::Hash>) -> bool {
    forall|i: int, j: int|
        0 <= i < j < keys.len() ==> (#[trigger] keys[i]).0@ < (#[trigger] keys[j]).0@
}

/// A map from hashes to values of any type, which lists its entries in the
/// ascending order of their hashes.
#[derive(Debug)]
pub struct HashTable<V> {
    entries: Vec<(crate::sha256::Hash, V)>,
}

/// The first members of pairs.
spec fn firsts<V>(entries: Seq<(crate::sha256::Hash, V)>) -> Seq<crate::sha256::Hash> {
    entries.map_values(|e: (crate::sha256::Hash, V)| e.0)
}

/// The position of the pair with a key.
spec fn place<V>(entries: Seq<(crate::sha256::Hash, V)>, key: crate::sha256::Hash) -> int {
    choose|i: int| 0 <= i < entries.len() && (#[trigger] entries[i]).0 == key
}

/// The map whose entries are the given pairs.
spec fn as_map<V>(entries: Seq<(crate::sha256::Hash, V)>) -> Map<crate::sha256::Hash, V> {
    Map::new(
        |key: crate::sha256::Hash|
            exists|i: int| 0 <= i < entries.len() && (#[trigger] entries[i]).0 == key,
        |key: crate::sha256::Hash|
            entries[place(entries, key)].1,
    )
}

impl<V> View for HashTable<V> {
    type V = Map<crate::sha256::Hash, V>;

    closed spec fn view(&self) -> Map<crate::sha256::Hash, V> {
        as_map(self.entries@)
    }
}

proof fn lemma_entry<V>(entries: Seq<(crate::sha256::Hash, V)>, i: int)
    requires
        ascending(firsts(entries)),
        0 <= i < entries.len(),
    ensures
        as_map(entries).contains_key(entries[i].0),
        as_map(entries)[entries[i].0] == entries[i].1,
{
    let key = entries[i].0;
    let j = place(entries, key);
    let keys = firsts(entries);
    assert(keys[i] == key && keys[j] == key);
    if i < j {
        assert(keys[i].0@ < keys[j].0@);
    } else if j < i {
        assert(keys[j].0@ < keys[i].0@);
    }
}

impl<V> HashTable<V> {
    #[verifier::type_invariant]
    spec fn inv(self) -> bool {
        ascending(firsts(self.entries@))
    }

    /// The keys, in ascending order.
    pub closed spec fn keys(self) -> Seq<crate::sha256::Hash> {
        firsts(self.entries@)
    }

    /// A table without entries.
    pub fn new() -> (table: HashTable<V>)
        ensures
            table@ == Map::<crate::sha256::Hash, V>::empty(),
            table.keys() == Seq::<crate::sha256::Hash>::empty(),
    {
        let table = HashTable { entries: Vec::new() };
        assert(as_map(table.entries@) =~= Map::<crate::sha256::Hash, V>::empty());
        assert(firsts(table.entries@) =~= Seq::<crate::sha256::Hash>::empty());
        table
    }

    /// The number of entries.
    pub fn len(&self) -> (n: usize)
        ensures
            n == self.keys().len(),
            ascending(self.keys()),
            forall|key: crate::sha256::Hash|
                #[trigger] self@.contains_key(key) <==> self.keys().contains(key),
    {
        proof {
            use_type_invariant(self);
            let keys = firsts(self.entries@);
            assert forall|key: crate::sha256::Hash| #[trigger]
                self@.contains_key(key) implies keys.contains(key) by {
                let i = choose|i: int|
                    0 <= i < self.entries@.len() && (#[trigger] self.entries@[i]).0 == key;
                assert(keys[i] == key);
            }
            assert forall|key: crate::sha256::Hash| keys.contains(key) implies #[trigger]
            self@.contains_key(key) by {
                let i = choose|i: int| 0 <= i < keys.len() && keys[i] == key;
                assert(self.entries@[i].0 == key);
            }
        }
        self.entries.len()
    }

    /// The entry at a position of the ascending list.
    pub fn entry(&self, i: usize) -> (r: (&crate::sha256::Hash, &V))
        requires
            i < self.keys().len(),
        ensures
            *r.0 == self.keys()[i as int],
            self@.contains_key(*r.0),
            *r.1 == self@[*r.0],
    {
        proof {
            use_type_invariant(self);
            lemma_entry(self.entries@, i as int);
        }
        (&self.entries[i].0, &self.entries[i].1)
    }

    /// The position of the first entry whose key is not less than `key`.
    fn position(entries: &Vec<(crate::sha256::Hash, V)>, key: &crate::sha256::Hash) -> (at: usize)
        requires
            ascending(firsts(entries@)),
        ensures
            at <= entries@.len(),
            forall|i: int| 0 <= i < at ==> (#[trigger] entries@[i]).0.0@ < key.0@,
            forall|i: int| at <= i < entries@.len() ==> key.0@ <= (#[trigger] entries@[i]).0.0@,
    {
        let mut low: usize = 0;
        let mut high: usize = entries.len();
        let ghost keys = firsts(entries@);
        while low < high
            invariant
                ascending(keys),
                keys == firsts(entries@),
                low <= high <= entries@.len(),
                forall|i: int| 0 <= i < low ==> (#[trigger] entries@[i]).0.0@ < key.0@,
                forall|i: int|
                    high <= i < entries@.len() ==> key.0@ <= (#[trigger] entries@[i]).0.0@,
            decreases high - low,
        {
            let middle: usize = low + (high - low) / 2;
            if entries[middle].0.0.less_than(&key.0) {
                assert forall|i: int| 0 <= i < middle + 1 implies (#[trigger] entries@[i]).0.0@
                    < key.0@ by {
                    assert(keys[i] == entries@[i].0 && keys[middle as int] == entries@[middle as int].0);
                }
                low = middle + 1;
            } else {
                assert forall|i: int| middle <= i < entries@.len() implies key.0@ <= (
                #[trigger] entries@[i]).0.0@ by {
                    assert(keys[i] == entries@[i].0 && keys[middle as int] == entries@[middle as int].0);
                }
                high = middle;
            }
        }
        low
    }

    /// The value of a key, if it has one.
    pub fn get(&self, key: &crate::sha256::Hash) -> (r: Option<&V>)
        ensures
            match r {
                Some(v) => self@.contains_key(*key) && *v == self@[*key],
                None => !self@.contains_key(*key),
            },
    {
        proof {
            use_type_invariant(self);
        }
        let at = Self::position(&self.entries, key);
        if at < self.entries.len() && self.entries[at].0 == *key {
            proof {
                lemma_entry(self.entries@, at as int);
            }
            Some(&self.entries[at].1)
        } else {
            proof {
                if self@.contains_key(*key) {
                    let i = choose|i: int|
                        0 <= i < self.entries@.len() && (#[trigger] self.entries@[i]).0 == *key;
                    let keys = firsts(self.entries@);
                    assert(keys[i] == *key);
                    if i > at {
                        assert(keys[at as int] == self.entries@[at as int].0);
                    }
                }
            }
            None
        }
    }

    /// Whether a key has a value.
    pub fn contains(&self, key: &crate::sha256::Hash) -> (r: bool)
        ensures
            r == self@.contains_key(*key),
    {
        self.get(key).is_some()
    }

    /// Gives a key a value, in place of the one that it had.
    pub fn insert(&mut self, key: crate::sha256::Hash, value: V)
        ensures
            final(self)@ == old(self)@.insert(key, value),
    {
        proof {
            use_type_invariant(&*self);
        }
        let mut entries: Vec<(crate::sha256::Hash, V)> = Vec::new();
        assert(firsts(entries@).len() == 0);
        std::mem::swap(&mut entries, &mut self.entries);
        let ghost before = entries@;
        let at = Self::position(&entries, &key);
        if at < entries.len() && entries[at].0 == key {
            entries.remove(at);
            proof {
                lemma_remove(before, at as int);
            }
            assert(entries@ == before.remove(at as int));
        }
        let ghost middle = entries@;
        entries.insert(at, (key, value));
        proof {
            assert forall|i: int| at <= i < middle.len() implies key.0@ < (
            #[trigger] middle[i]).0.0@ by {
                let keys = firsts(before);
                let i2 = if middle.len() < before.len() { i + 1 } else { i };
                assert(middle[i] == before[i2]);
                assert(keys[i2] == before[i2].0 && keys[at as int] == before[at as int].0);
                if at < i2 {
                    assert(keys[at as int].0@ < keys[i2].0@);
                } else if key.0@ == before[i2].0.0@ {
                    lemma_u256_injective(key.0, before[i2].0.0);
                }
            }
            lemma_insert(middle, at as int, key, value);
            assert(as_map(entries@) =~= as_map(before).insert(key, value));
        }
        self.entries = entries;
    }

    /// Takes a key and its value out.
    pub fn remove(&mut self, key: &crate::sha256::Hash)
        ensures
            final(self)@ == old(self)@.remove(*key),
    {
        proof {
            use_type_invariant(&*self);
        }
        let mut entries: Vec<(crate::sha256::Hash, V)> = Vec::new();
        assert(firsts(entries@).len() == 0);
        std::mem::swap(&mut entries, &mut self.entries);
        let ghost before = entries@;
        let at = Self::position(&entries, key);
        if at < entries.len() && entries[at].0 == *key {
            entries.remove(at);
            proof {
                lemma_remove(before, at as int);
            }
        } else {
            proof {
                assert forall|i: int| 0 <= i < before.len() implies (#[trigger] before[i]).0
                    != *key by {
                    let keys = firsts(before);
                    assert(keys[i] == before[i].0);
                    if i > at {
                        assert(keys[at as int] == before[at as int].0);
                    }
                }
                assert(as_map(before).remove(*key) =~= as_map(before));
            }
        }
        self.entries = entries;
    }
}

proof fn lemma_remove<V>(entries: Seq<(crate::sha256::Hash, V)>, at: int)
    requires
        ascending(firsts(entries)),
        0 <= at < entries.len(),
    ensures
        ascending(firsts(entries.remove(at))),
        as_map(entries.remove(at)) == as_map(entries).remove(entries[at].0),
{
    let key = entries[at].0;
    let after = entries.remove(at);
    let keys = firsts(entries);
    assert forall|i: int, j: int| 0 <= i < j < after.len() implies (#[trigger] firsts(
        after,
    )[i]).0@ < (#[trigger] firsts(after)[j]).0@ by {
        let i2 = if i < at { i } else { i + 1 };
        let j2 = if j < at { j } else { j + 1 };
        assert(after[i] == entries[i2] && after[j] == entries[j2]);
        assert(keys[i2].0@ < keys[j2].0@);
    }
    assert forall|k: crate::sha256::Hash| #[trigger] as_map(after).dom().contains(k) implies as_map(
        entries,
    ).contains_key(k) && k != key && as_map(after)[k] == as_map(entries)[k] by {
        let i = choose|i: int| 0 <= i < after.len() && (#[trigger] after[i]).0 == k;
        let i2 = if i < at { i } else { i + 1 };
        assert(after[i] == entries[i2]);
        lemma_entry(after, i);
        lemma_entry(entries, i2);
        assert(keys[i2] == k && keys[at] == key);
        if i2 < at {
            assert(keys[i2].0@ < keys[at].0@);
        } else {
            assert(keys[at].0@ < keys[i2].0@);
        }
    }
    assert forall|k: crate::sha256::Hash| #[trigger] as_map(entries).dom().contains(k) && k
        != key implies as_map(after).contains_key(k) by {
        let i = choose|i: int| 0 <= i < entries.len() && (#[trigger] entries[i]).0 == k;
        let i2 = if i < at { i } else { i - 1 };
        assert(after[i2] == entries[i]);
    }
    assert(as_map(after) =~= as_map(entries).remove(key));
}

proof fn lemma_insert<V>(
    entries: Seq<(crate::sha256::Hash, V)>,
    at: int,
    key: crate::sha256::Hash,
    value: V,
)
    requires
        ascending(firsts(entries)),
        0 <= at <= entries.len(),
        forall|i: int| 0 <= i < at ==> (#[trigger] entries[i]).0.0@ < key.0@,
        forall|i: int| at <= i < entries.len() ==> key.0@ < (#[trigger] entries[i]).0.0@,
    ensures
        ascending(firsts(entries.insert(at, (key, value)))),
        as_map(entries.insert(at, (key, value))) == as_map(entries).insert(key, value),
{
    let after = entries.insert(at, (key, value));
    let keys = firsts(entries);
    assert forall|i: int, j: int| 0 <= i < j < after.len() implies (#[trigger] firsts(
        after,
    )[i]).0@ < (#[trigger] firsts(after)[j]).0@ by {
        let i2 = if i < at { i } else { i - 1 };
        let j2 = if j < at { j } else { j - 1 };
        if i != at {
            assert(after[i] == entries[i2]);
            assert(keys[i2] == entries[i2].0);
        }
        if j != at {
            assert(after[j] == entries[j2]);
            assert(keys[j2] == entries[j2].0);
        }
    }
    assert forall|k: crate::sha256::Hash| #[trigger] as_map(after).dom().contains(k) implies as_map(
        entries,
    ).insert(key, value).contains_key(k) && as_map(after)[k] == as_map(entries).insert(
        key,
        value,
    )[k] by {
        let i = choose|i: int| 0 <= i < after.len() && (#[trigger] after[i]).0 == k;
        lemma_entry(after, i);
        if i != at {
            let i2 = if i < at { i } else { i - 1 };
            assert(after[i] == entries[i2]);
            lemma_entry(entries, i2);
        }
    }
    assert forall|k: crate::sha256::Hash| as_map(entries).insert(key, value).contains_key(
        k,
    ) implies as_map(after).contains_key(k) by {
        if k == key {
            assert(after[at].0 == key);
        } else {
            let i = choose|i: int| 0 <= i < entries.len() && (#[trigger] entries[i]).0 == k;
            let i2 = if i < at { i } else { i + 1 };
            assert(after[i2] == entries[i]);
        }
    }
    assert(as_map(after) =~= as_map(entries).insert(key, value));
}

} // verus!

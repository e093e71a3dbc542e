//! A map keyed by text, kept in insertion order.

use crate::text::string_views;
use vstd::prelude::*;

verus! {

/// A finite map from strings to values. A key occurs once; inserting under a
/// key that is present replaces its value.
pub struct TextMap<V> {
    keys: Vec<String>,
    values: Vec<V>,
}

/// The first position at which `k` stands in `keys`, if it stands there.
pub open spec fn position_of<K>(keys: Seq<K>, k: K) -> Option<int>
    decreases keys.len(),
{
    if keys.len() == 0 {
        None
    } else if position_of(keys.drop_last(), k) is Some {
        position_of(keys.drop_last(), k)
    } else if keys.last() == k {
        Some(keys.len() - 1)
    } else {
        None
    }
}

/// `position_of` finds a position that holds the key, and only fails where no
/// position holds it.
pub proof fn lemma_position_of<K>(keys: Seq<K>, k: K)
    ensures
        match position_of(keys, k) {
            Some(i) => 0 <= i < keys.len() && keys[i] == k && forall|j: int|
                0 <= j < i ==> keys[j] != k,
            None => forall|j: int| 0 <= j < keys.len() ==> keys[j] != k,
        },
    decreases keys.len(),
{
    if keys.len() > 0 {
        let front = keys.drop_last();
        lemma_position_of(front, k);
        assert(forall|j: int| 0 <= j < front.len() ==> front[j] == keys[j]);
    }
}

/// Whether no key stands in a sequence twice.
pub open spec fn distinct_keys<K>(keys: Seq<K>) -> bool {
    forall|i: int, j: int| 0 <= i < j < keys.len() ==> keys[i] != keys[j]
}

/// The map that takes each key of a sequence to the value at its position.
pub open spec fn keyed_map<K, V>(keys: Seq<K>, values: Seq<V>) -> Map<K, V> {
    Map::new(
        |k: K| position_of(keys, k) is Some,
        |k: K| values[position_of(keys, k).unwrap()],
    )
}

/// Among distinct keys, the position of a key is where it stands.
pub proof fn lemma_position_at<K>(keys: Seq<K>, i: int)
    requires
        distinct_keys(keys),
        0 <= i < keys.len(),
    ensures
        position_of(keys, keys[i]) == Some(i),
{
    lemma_position_of(keys, keys[i]);
}

/// Replacing the value at the position of a key replaces the entry of that
/// key and no other.
pub proof fn lemma_keyed_update<K, V>(keys: Seq<K>, values: Seq<V>, i: int, v: V)
    requires
        distinct_keys(keys),
        keys.len() == values.len(),
        0 <= i < keys.len(),
    ensures
        keyed_map(keys, values.update(i, v)) == keyed_map(keys, values).insert(keys[i], v),
{
    lemma_position_at(keys, i);
    assert(keyed_map(keys, values.update(i, v)) =~= keyed_map(keys, values).insert(keys[i], v))
        by {
        assert forall|k: K| #[trigger]
            keyed_map(keys, values.update(i, v)).contains_key(k) implies keyed_map(
            keys,
            values.update(i, v),
        )[k] == keyed_map(keys, values).insert(keys[i], v)[k] by {
            lemma_position_of(keys, k);
        }
    }
}

/// Appending a key that is not present, with its value, adds that entry and
/// keeps the keys distinct.
pub proof fn lemma_keyed_push<K, V>(keys: Seq<K>, values: Seq<V>, k: K, v: V)
    requires
        distinct_keys(keys),
        keys.len() == values.len(),
        position_of(keys, k) is None,
    ensures
        distinct_keys(keys.push(k)),
        keyed_map(keys.push(k), values.push(v)) == keyed_map(keys, values).insert(k, v),
{
    let keys1 = keys.push(k);
    lemma_position_of(keys, k);
    assert(keys1.drop_last() =~= keys);
    assert(keyed_map(keys1, values.push(v)) =~= keyed_map(keys, values).insert(k, v)) by {
        assert forall|x: K| #[trigger]
            keyed_map(keys1, values.push(v)).contains_key(x) == keyed_map(keys, values).insert(
                k,
                v,
            ).contains_key(x) by {
            lemma_position_of(keys, x);
            lemma_position_of(keys1, x);
        }
        assert forall|x: K| #[trigger]
            keyed_map(keys1, values.push(v)).contains_key(x) implies keyed_map(
            keys1,
            values.push(v),
        )[x] == keyed_map(keys, values).insert(k, v)[x] by {
            lemma_position_of(keys, x);
            lemma_position_of(keys1, x);
        }
    }
}

impl<V> TextMap<V> {
    /// Whether the map is well formed: no key stands in it twice.
    pub closed spec fn wf(self) -> bool {
        &&& self.keys@.len() == self.values@.len()
        &&& distinct_keys(string_views(self.keys@))
    }

    /// The keys, in the order in which they were first inserted.
    pub closed spec fn key_seq(self) -> Seq<Seq<char>> {
        string_views(self.keys@)
    }

    /// The values, each at the position of its key.
    pub closed spec fn value_seq(self) -> Seq<V> {
        self.values@
    }

    /// The map that this value stands for.
    pub open spec fn view(self) -> Map<Seq<char>, V> {
        keyed_map(self.key_seq(), self.value_seq())
    }

    /// An empty map.
    pub fn new() -> (r: TextMap<V>)
        ensures
            r.wf(),
            r@ == Map::<Seq<char>, V>::empty(),
            r.key_seq().len() == 0,
    {
        let r = TextMap { keys: Vec::new(), values: Vec::new() };
        assert(r@ =~= Map::<Seq<char>, V>::empty());
        r
    }

    /// The number of keys.
    pub fn len(&self) -> (n: usize)
        requires
            self.wf(),
        ensures
            n == self.key_seq().len(),
            n == self.value_seq().len(),
    {
        self.keys.len()
    }

    fn position(&self, key: &str) -> (r: Option<usize>)
        requires
            self.wf(),
        ensures
            match r {
                Some(i) => position_of(self.key_seq(), key@) == Some(i as int) && i
                    < self.keys@.len(),
                None => position_of(self.key_seq(), key@) is None,
            },
    {
        let wanted = key.to_owned();
        let ghost ks = self.key_seq();
        let mut i: usize = 0;
        while i < self.keys.len()
            invariant
                i <= self.keys@.len(),
                wanted@ == key@,
                ks == string_views(self.keys@),
                distinct_keys(ks),
                forall|j: int| 0 <= j < i ==> ks[j] != key@,
            decreases self.keys@.len() - i,
        {
            if self.keys[i] == wanted {
                proof {
                    assert(ks[i as int] == key@);
                    lemma_position_at(ks, i as int);
                }
                return Some(i);
            }
            i = i + 1;
        }
        proof {
            lemma_position_of(ks, key@);
        }
        None
    }

    /// Whether the key is present.
    pub fn contains_key(&self, key: &str) -> (r: bool)
        requires
            self.wf(),
        ensures
            r == self@.contains_key(key@),
    {
        self.position(key).is_some()
    }

    /// The value under a key.
    pub fn get(&self, key: &str) -> (r: Option<&V>)
        requires
            self.wf(),
        ensures
            match r {
                Some(v) => self@.contains_key(key@) && *v == self@[key@],
                None => !self@.contains_key(key@),
            },
    {
        match self.position(key) {
            Some(i) => Some(&self.values[i]),
            None => None,
        }
    }

    /// Puts a value under a key; a value that was there is replaced.
    pub fn insert(&mut self, key: &str, value: V)
        requires
            old(self).wf(),
        ensures
            final(self).wf(),
            final(self)@ == old(self)@.insert(key@, value),
    {
        let ghost keys0 = self.key_seq();
        let ghost values0 = self.value_seq();
        match self.position(key) {
            Some(i) => {
                self.values.set(i, value);
                proof {
                    lemma_position_of(keys0, key@);
                    lemma_keyed_update(keys0, values0, i as int, value);
                }
            },
            None => {
                self.keys.push(key.to_owned());
                self.values.push(value);
                proof {
                    assert(self.key_seq() =~= keys0.push(key@));
                    lemma_keyed_push(keys0, values0, key@, value);
                }
            },
        }
    }
}

} // verus!

//! A map from names to values, small enough to be searched from end to end.

use crate::text::same_text;
use vstd::prelude::*;

verus! {

/// A map from strings to `V`.
pub struct Registry<V> {
    entries: Vec<(String, V)>,
}

/// The names of `entries`, in order.
spec fn keys_of<V>(entries: Seq<(String, V)>) -> Seq<Seq<char>> {
    entries.map_values(|entry: (String, V)| entry.0@)
}

/// The map that `entries` stand for.
spec fn map_of<V>(entries: Seq<(String, V)>) -> Map<Seq<char>, V> {
    let keys = keys_of(entries);
    Map::new(|key: Seq<char>| keys.contains(key), |key: Seq<char>| entries[keys.index_of(key)].1)
}

proof fn lemma_map_of<V>(entries: Seq<(String, V)>)
    requires
        keys_of(entries).no_duplicates(),
    ensures
        forall|i: int|
            #![trigger entries[i]]
            0 <= i < entries.len() ==> {
                &&& keys_of(entries)[i] == entries[i].0@
                &&& map_of(entries).contains_key(entries[i].0@)
                &&& map_of(entries)[entries[i].0@] == entries[i].1
            },
{
    assert forall|i: int| #![trigger entries[i]] 0 <= i < entries.len() implies {
        &&& keys_of(entries)[i] == entries[i].0@
        &&& map_of(entries).contains_key(entries[i].0@)
        &&& map_of(entries)[entries[i].0@] == entries[i].1
    } by {
        let keys = keys_of(entries);
        assert(keys[i] == entries[i].0@);
        assert(keys.contains(keys[i]));
        let at = keys.index_of(keys[i]);
        assert(keys[at] == keys[i]);
    }
}

proof fn lemma_update<V>(entries: Seq<(String, V)>, i: int, value: V)
    requires
        keys_of(entries).no_duplicates(),
        0 <= i < entries.len(),
    ensures
        keys_of(entries.update(i, (entries[i].0, value))) == keys_of(entries),
        map_of(entries.update(i, (entries[i].0, value))) == map_of(entries).insert(
            entries[i].0@,
            value,
        ),
{
    let new = entries.update(i, (entries[i].0, value));
    assert(keys_of(new) =~= keys_of(entries));
    lemma_map_of(entries);
    lemma_map_of(new);
    assert forall|key: Seq<char>| keys_of(entries).contains(key) implies map_of(new)[key]
        == map_of(entries).insert(entries[i].0@, value)[key] by {
        let j = keys_of(entries).index_of(key);
        assert(entries[j].0@ == key);
        assert(new[j].0@ == key);
    }
    assert(keys_of(entries).contains(keys_of(entries)[i]));
    assert(map_of(new) =~= map_of(entries).insert(entries[i].0@, value));
}

proof fn lemma_remove<V>(entries: Seq<(String, V)>, i: int)
    requires
        keys_of(entries).no_duplicates(),
        0 <= i < entries.len(),
    ensures
        keys_of(entries.remove(i)).no_duplicates(),
        map_of(entries.remove(i)) == map_of(entries).remove(entries[i].0@),
{
    let new = entries.remove(i);
    let keys = keys_of(entries);
    assert(keys_of(new) =~= keys.remove(i));
    lemma_map_of(entries);
    lemma_map_of(new);
    assert forall|key: Seq<char>| keys_of(new).contains(key) <==> keys.contains(key) && key
        != entries[i].0@ by {
        if keys_of(new).contains(key) {
            let j = keys_of(new).index_of(key);
            assert(keys_of(new)[j] == key);
            let at = if j < i {
                j
            } else {
                j + 1
            };
            assert(keys[at] == key);
            assert(keys[i] == entries[i].0@);
        }
        if keys.contains(key) && key != entries[i].0@ {
            let j = keys.index_of(key);
            let at = if j < i {
                j
            } else {
                j - 1
            };
            assert(keys_of(new)[at] == key);
        }
    }
    assert forall|key: Seq<char>| keys_of(new).contains(key) implies map_of(new)[key] == map_of(
        entries,
    )[key] by {
        let j = keys_of(new).index_of(key);
        assert(new[j].0@ == key);
        let at = if j < i {
            j
        } else {
            j + 1
        };
        assert(entries[at] == new[j]);
    }
    assert(map_of(new) =~= map_of(entries).remove(entries[i].0@));
}

proof fn lemma_push<V>(entries: Seq<(String, V)>, key: String, value: V)
    requires
        keys_of(entries).no_duplicates(),
        !map_of(entries).contains_key(key@),
    ensures
        keys_of(entries.push((key, value))).no_duplicates(),
        map_of(entries.push((key, value))) == map_of(entries).insert(key@, value),
{
    let new = entries.push((key, value));
    let keys = keys_of(entries);
    assert(keys_of(new) =~= keys.push(key@));
    assert(!keys.contains(key@));
    lemma_map_of(entries);
    lemma_map_of(new);
    assert(new[entries.len() as int] == (key, value));
    assert forall|k: Seq<char>| keys.contains(k) implies #[trigger] map_of(new)[k] == map_of(
        entries,
    )[k] by {
        let j = keys.index_of(k);
        assert(entries[j].0@ == k);
        assert(new[j] == entries[j]);
    }
    assert forall|k: Seq<char>| keys_of(new).contains(k) <==> keys.contains(k) || k == key@ by {
        if keys.contains(k) {
            assert(keys_of(new)[keys.index_of(k)] == k);
        }
        if k == key@ {
            assert(keys_of(new)[keys.len() as int] == k);
        }
    }
    assert(map_of(new) =~= map_of(entries).insert(key@, value));
}

impl<V> View for Registry<V> {
    type V = Map<Seq<char>, V>;

    closed spec fn view(&self) -> Map<Seq<char>, V> {
        map_of(self.entries@)
    }
}

impl<V> Registry<V> {
    /// The names in the map, in the order of the entries.
    pub closed spec fn keys(&self) -> Seq<Seq<char>> {
        keys_of(self.entries@)
    }

    /// No name occurs twice.
    pub open spec fn wf(&self) -> bool {
        self.keys().no_duplicates()
    }

    /// The names are the keys of the map, each once.
    pub proof fn lemma_keys(&self)
        requires
            self.wf(),
        ensures
            self@.dom() == self.keys().to_set(),
            self@.dom().finite(),
            self@.dom().len() == self.keys().len(),
    {
        assert(self@.dom() =~= self.keys().to_set());
        self.keys().unique_seq_to_set();
        vstd::seq_lib::seq_to_set_is_finite(self.keys());
    }

    /// An empty map.
    pub fn new() -> (map: Registry<V>)
        ensures
            map.wf(),
            map@ == Map::<Seq<char>, V>::empty(),
            map.keys() == Seq::<Seq<char>>::empty(),
    {
        let map = Registry { entries: Vec::new() };
        assert(map.keys() =~= seq![]);
        assert(map@ =~= Map::empty());
        map
    }

    /// The number of entries.
    pub fn len(&self) -> (n: usize)
        ensures
            n == self.keys().len(),
    {
        self.entries.len()
    }

    /// The name of the entry at `i`.
    pub fn key_at(&self, i: usize) -> (key: &String)
        requires
            i < self.keys().len(),
        ensures
            key@ == self.keys()[i as int],
    {
        &self.entries[i].0
    }

    /// The value of the entry at `i`.
    pub fn value_at(&self, i: usize) -> (value: &V)
        requires
            self.wf(),
            i < self.keys().len(),
        ensures
            self@.contains_key(self.keys()[i as int]),
            *value == self@[self.keys()[i as int]],
    {
        proof {
            lemma_map_of(self.entries@);
        }
        &self.entries[i].1
    }

    fn position(&self, key: &str) -> (at: Option<usize>)
        ensures
            match at {
                Some(i) => i < self.entries@.len() && self.entries@[i as int].0@ == key@,
                None => !self.keys().contains(key@),
            },
    {
        for i in 0..self.entries.len()
            invariant
                forall|j: int| 0 <= j < i ==> #[trigger] self.keys()[j] != key@,
        {
            if same_text(self.entries[i].0.as_str(), key) {
                return Some(i);
            }
        }
        None
    }

    /// The value under `key`, if there is one.
    pub fn get(&self, key: &str) -> (found: Option<&V>)
        requires
            self.wf(),
        ensures
            match found {
                Some(value) => self@.contains_key(key@) && *value == self@[key@],
                None => !self@.contains_key(key@),
            },
    {
        match self.position(key) {
            Some(i) => {
                proof {
                    lemma_map_of(self.entries@);
                }
                Some(&self.entries[i].1)
            },
            None => None,
        }
    }

    /// The value under `key`, for change.
    pub fn get_mut(&mut self, key: &str) -> (found: Option<&mut V>)
        requires
            old(self).wf(),
        ensures
            final(self).wf(),
            final(self).keys() == old(self).keys(),
            match found {
                Some(value) => {
                    &&& old(self)@.contains_key(key@)
                    &&& *value == old(self)@[key@]
                    &&& final(self)@ == old(self)@.insert(key@, *final(value))
                },
                None => !old(self)@.contains_key(key@) && *final(self) == *old(self),
            },
    {
        match self.position(key) {
            Some(i) => {
                proof {
                    lemma_map_of(self.entries@);
                }
                proof {
                    let entries = self.entries@;
                    assert forall|value: V|
                        #![trigger entries.update(i as int, (entries[i as int].0, value))]
                        keys_of(entries.update(i as int, (entries[i as int].0, value))) == keys_of(
                            entries,
                        ) && map_of(entries.update(i as int, (entries[i as int].0, value)))
                            == map_of(entries).insert(key@, value) by {
                        lemma_update(entries, i as int, value);
                    }
                }
                Some(&mut self.entries[i].1)
            },
            None => None,
        }
    }

    /// Removes the entry under `key` and returns its value.
    pub fn remove(&mut self, key: &str) -> (removed: Option<V>)
        requires
            old(self).wf(),
        ensures
            final(self).wf(),
            final(self)@ == old(self)@.remove(key@),
            match removed {
                Some(value) => old(self)@.contains_key(key@) && value == old(self)@[key@],
                None => !old(self)@.contains_key(key@),
            },
    {
        match self.position(key) {
            Some(i) => {
                proof {
                    lemma_map_of(self.entries@);
                }
                proof {
                    lemma_remove(self.entries@, i as int);
                }
                let entry = self.entries.remove(i);
                Some(entry.1)
            },
            None => {
                assert(self@.remove(key@) =~= self@);
                None
            },
        }
    }

    /// Puts `value` under `key` and returns the value that it replaces.
    pub fn insert(&mut self, key: String, value: V) -> (replaced: Option<V>)
        requires
            old(self).wf(),
        ensures
            final(self).wf(),
            final(self)@ == old(self)@.insert(key@, value),
            match replaced {
                Some(value) => old(self)@.contains_key(key@) && value == old(self)@[key@],
                None => !old(self)@.contains_key(key@),
            },
    {
        let replaced = self.remove(key.as_str());
        proof {
            lemma_push(self.entries@, key, value);
            assert(old(self)@.remove(key@).insert(key@, value) =~= old(self)@.insert(key@, value));
        }
        self.entries.push((key, value));
        replaced
    }
}

} // verus!

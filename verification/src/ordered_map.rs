//! A map from strings to values that remembers the order in which its keys
//! were first inserted.
//!
//! The model of a map is the sequence of its entries, each a key (as a
//! sequence of characters) with the model of its value. No key occurs twice.

use vstd::prelude::*;
use vstd::string::StringExecFns;

verus! {

/// No two entries carry the same key.
pub open spec fn keys_distinct<T>(entries: Seq<(Seq<char>, T)>) -> bool {
    forall|i: int, j: int|
        0 <= i < j < entries.len() ==> (#[trigger] entries[i]).0 != (#[trigger] entries[j]).0
}

/// Some entry carries `key`.
pub open spec fn has_key<T>(entries: Seq<(Seq<char>, T)>, key: Seq<char>) -> bool {
    exists|i: int| 0 <= i < entries.len() && (#[trigger] entries[i]).0 == key
}

/// The position of an entry that carries `key`. Where the keys are distinct
/// and `key` is present, this is the one position that holds it.
pub open spec fn index_of_key<T>(entries: Seq<(Seq<char>, T)>, key: Seq<char>) -> int {
    choose|i: int| 0 <= i < entries.len() && (#[trigger] entries[i]).0 == key
}

/// The value stored under `key`.
pub open spec fn value_of<T>(entries: Seq<(Seq<char>, T)>, key: Seq<char>) -> T
    recommends
        has_key(entries, key),
{
    entries[index_of_key(entries, key)].1
}

/// The entries after `value` has been stored under `key`: a key that is
/// already present keeps its place and gets the new value, a new key goes to
/// the end.
pub open spec fn put<T>(entries: Seq<(Seq<char>, T)>, key: Seq<char>, value: T) -> Seq<
    (Seq<char>, T),
> {
    if has_key(entries, key) {
        entries.update(index_of_key(entries, key), (key, value))
    } else {
        entries.push((key, value))
    }
}

/// In a sequence with distinct keys, the entry at position `i` is the one
/// that `index_of_key` and `value_of` find for its key.
pub proof fn lemma_lookup_at<T>(entries: Seq<(Seq<char>, T)>, i: int)
    requires
        keys_distinct(entries),
        0 <= i < entries.len(),
    ensures
        has_key(entries, entries[i].0),
        index_of_key(entries, entries[i].0) == i,
        value_of(entries, entries[i].0) == entries[i].1,
{
    let key = entries[i].0;
    let found = index_of_key(entries, key);
    assert(0 <= found < entries.len() && entries[found].0 == key);
    if found < i {
        assert(entries[found].0 != entries[i].0);
    } else if i < found {
        assert(entries[i].0 != entries[found].0);
    }
}

/// Finds the first entry whose key reads as `key` does.
pub(crate) fn find_key<V>(entries: &Vec<(String, V)>, key: &String) -> (found: Option<usize>)
    ensures
        match found {
            Some(i) => i < entries@.len() && entries@[i as int].0@ == key@ && forall|j: int|
                0 <= j < i ==> (#[trigger] entries@[j]).0@ != key@,
            None => forall|j: int| 0 <= j < entries@.len() ==> (#[trigger] entries@[j]).0@ != key@,
        },
{
    let mut i: usize = 0;
    while i < entries.len()
        invariant
            i <= entries@.len(),
            forall|j: int| 0 <= j < i ==> (#[trigger] entries@[j]).0@ != key@,
        decreases entries@.len() - i,
    {
        if entries[i].0 == *key {
            return Some(i);
        }
        i += 1;
    }
    None
}

/// A map from strings to values, in order of first insertion.
#[derive(Debug)]
pub struct OrderedMap<V> {
    entries: Vec<(String, V)>,
}

impl<V: DeepView> View for OrderedMap<V> {
    type V = Seq<(Seq<char>, V::V)>;

    closed spec fn view(&self) -> Self::V {
        self.entries.deep_view()
    }
}

impl<V> OrderedMap<V> {
    #[verifier::type_invariant]
    spec fn keys_are_unique(self) -> bool {
        forall|i: int, j: int|
            0 <= i < j < self.entries@.len() ==> (#[trigger] self.entries@[i]).0@ != (
            #[trigger] self.entries@[j]).0@
    }
}

impl<V: DeepView> OrderedMap<V> {
    /// The value of the entry at position `i`, as it is stored.
    pub closed spec fn stored(&self, i: int) -> V {
        self.entries@[i].1
    }

    /// The model speaks of the stored values: the value in entry `i` of
    /// the model is the model of the value stored at position `i`.
    pub proof fn lemma_stored(&self, i: int)
        requires
            0 <= i < self@.len(),
        ensures
            self@[i].1 == self.stored(i).deep_view(),
    {
    }

    /// An empty map.
    pub fn new() -> (map: Self)
        ensures
            map@ == Seq::<(Seq<char>, V::V)>::empty(),
    {
        let map = OrderedMap { entries: Vec::new() };
        assert(map@ =~= Seq::<(Seq<char>, V::V)>::empty());
        map
    }

    /// The number of entries.
    pub fn len(&self) -> (n: usize)
        ensures
            n == self@.len(),
    {
        self.entries.len()
    }

    /// Whether the map holds no entry.
    pub fn is_empty(&self) -> (empty: bool)
        ensures
            empty == (self@.len() == 0),
    {
        self.entries.len() == 0
    }

    /// Whether `key` is present.
    pub fn contains_key(&self, key: &str) -> (present: bool)
        ensures
            present == has_key(self@, key@),
    {
        let owned = String::from_str(key);
        match find_key(&self.entries, &owned) {
            Some(i) => {
                assert(self@[i as int].0 == key@);
                true
            },
            None => {
                assert forall|j: int| 0 <= j < self@.len() implies (#[trigger] self@[j]).0
                    != key@ by {
                    assert(self.entries@[j].0@ != key@);
                }
                false
            },
        }
    }

    /// The value stored under `key`, if there is one.
    pub fn get(&self, key: &str) -> (found: Option<&V>)
        ensures
            keys_distinct(self@),
            match found {
                Some(value) => has_key(self@, key@) && value.deep_view() == value_of(self@, key@),
                None => !has_key(self@, key@),
            },
    {
        proof {
            use_type_invariant(self);
        }
        let owned = String::from_str(key);
        match find_key(&self.entries, &owned) {
            Some(i) => {
                proof {
                    lemma_lookup_at(self@, i as int);
                }
                Some(&self.entries[i].1)
            },
            None => {
                assert forall|j: int| 0 <= j < self@.len() implies (#[trigger] self@[j]).0
                    != key@ by {
                    assert(self.entries@[j].0@ != key@);
                }
                None
            },
        }
    }

    /// Stores `value` under `key` and returns the value that was stored
    /// there before, if any.
    pub fn insert(&mut self, key: String, value: V) -> (previous: Option<V>)
        ensures
            final(self)@ == put(old(self)@, key@, value.deep_view()),
            keys_distinct(old(self)@),
            keys_distinct(final(self)@),
            match previous {
                Some(earlier) => has_key(old(self)@, key@) && earlier.deep_view() == value_of(
                    old(self)@,
                    key@,
                ),
                None => !has_key(old(self)@, key@),
            },
    {
        proof {
            use_type_invariant(&*self);
        }
        let ghost before = self@;
        let mut entries = Vec::new();
        std::mem::swap(&mut entries, &mut self.entries);
        let previous = match find_key(&entries, &key) {
            Some(i) => {
                proof {
                    lemma_lookup_at(before, i as int);
                }
                let ghost stored = (key@, value.deep_view());
                let mut entry = (key, value);
                entries.set_and_swap(i, &mut entry);
                assert(entries.deep_view() =~= before.update(i as int, stored));
                Some(entry.1)
            },
            None => {
                assert forall|j: int| 0 <= j < before.len() implies (#[trigger] before[j]).0
                    != key@ by {
                    assert(entries@[j].0@ != key@);
                }
                let ghost stored = (key@, value.deep_view());
                entries.push((key, value));
                assert(entries.deep_view() =~= before.push(stored));
                None
            },
        };
        assert forall|i: int, j: int| 0 <= i < j < entries@.len() implies (
        #[trigger] entries@[i]).0@ != (#[trigger] entries@[j]).0@ by {
            assert(entries.deep_view()[i].0 == entries@[i].0@);
            assert(entries.deep_view()[j].0 == entries@[j].0@);
        }
        self.entries = entries;
        previous
    }

    /// The entries in order, borrowed.
    pub fn entries(&self) -> (entries: &Vec<(String, V)>)
        ensures
            entries.deep_view() == self@,
            keys_distinct(self@),
    {
        proof {
            use_type_invariant(self);
        }
        &self.entries
    }

    /// The entries in order, by value.
    pub fn into_entries(self) -> (entries: Vec<(String, V)>)
        ensures
            entries.deep_view() == self@,
            keys_distinct(self@),
    {
        proof {
            use_type_invariant(&self);
        }
        self.entries
    }

    /// Makes a map of entries whose keys are known to be distinct.
    pub(crate) fn from_distinct(entries: Vec<(String, V)>) -> (map: Self)
        requires
            keys_distinct(entries.deep_view()),
        ensures
            map@ == entries.deep_view(),
    {
        assert forall|i: int, j: int| 0 <= i < j < entries@.len() implies (
        #[trigger] entries@[i]).0@ != (#[trigger] entries@[j]).0@ by {
            assert(entries.deep_view()[i].0 != entries.deep_view()[j].0);
        }
        OrderedMap { entries }
    }
}

impl<V: Clone + DeepView> Clone for OrderedMap<V> {
    /// A map with the same keys in the same order, each with a clone of the
    /// value that is stored with it.
    fn clone(&self) -> (copy: Self)
        ensures
            copy@.len() == self@.len(),
            forall|i: int|
                0 <= i < self@.len() ==> (#[trigger] copy@[i]).0 == self@[i].0 && cloned(
                    self.stored(i),
                    copy.stored(i),
                ),
    {
        proof {
            use_type_invariant(self);
        }
        let mut entries: Vec<(String, V)> = Vec::new();
        let mut i: usize = 0;
        while i < self.entries.len()
            invariant
                i <= self.entries@.len(),
                entries@.len() == i,
                forall|j: int|
                    0 <= j < i ==> (#[trigger] entries@[j]).0@ == self.entries@[j].0@ && cloned(
                        self.entries@[j].1,
                        entries@[j].1,
                    ),
            decreases self.entries@.len() - i,
        {
            let key = self.entries[i].0.clone();
            let value = self.entries[i].1.clone();
            entries.push((key, value));
            i += 1;
        }
        OrderedMap { entries }
    }
}

} // verus!

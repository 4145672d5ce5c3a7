//! The ordered context map: string keys to values, in first-insertion order.

use crate::model::{
    entries_get, entries_insert, entry_keys, first_at, lemma_first_index_is,
    lemma_first_index_none, lemma_insert_keys, ValueView,
};
use crate::value::{string_views, Value};
use std::rc::Rc;
use vstd::prelude::*;

verus! {

/// One key with the value stored under it.
#[derive(Debug)]
struct Entry {
    key: String,
    value: Value,
}

/// An insertion-ordered mapping from string keys to values, in which no key
/// occurs twice.
#[derive(Debug)]
pub struct ContextMap {
    entries: Vec<Entry>,
}

spec fn entries_model(entries: Vec<Entry>) -> Seq<(Seq<char>, ValueView)>
    decreases entries,
{
    Seq::new(
        entries@.len(),
        |i: int|
            if 0 <= i < entries@.len() {
                (entries@[i].key@, entries@[i].value.model())
            } else {
                (Seq::empty(), ValueView::Undefined)
            },
    )
}

impl ContextMap {
    /// The entries as (key, value) pairs, in order.
    pub closed spec fn model(self) -> Seq<(Seq<char>, ValueView)>
        decreases self,
    {
        entries_model(self.entries)
    }

    #[verifier::type_invariant]
    spec fn keys_distinct(self) -> bool {
        entry_keys(self.model()).no_duplicates()
    }

    /// An empty map.
    pub fn new() -> (map: Self)
        ensures
            map@ == Seq::<(Seq<char>, ValueView)>::empty(),
    {
        let map = ContextMap { entries: Vec::new() };
        assert(map.model() =~= Seq::<(Seq<char>, ValueView)>::empty());
        map
    }

    /// The number of entries.
    pub fn len(&self) -> (n: usize)
        ensures
            n == self@.len(),
    {
        self.entries.len()
    }

    /// Whether the map has no entries.
    pub fn is_empty(&self) -> (empty: bool)
        ensures
            empty == (self@.len() == 0),
    {
        self.entries.len() == 0
    }

    /// Inserts `value` under `key`. A key that is already present keeps its
    /// position and takes the new value; a new key goes to the end.
    pub fn insert(&mut self, key: String, value: Value)
        ensures
            final(self)@ == entries_insert(old(self)@, key@, value@),
            entry_keys(final(self)@).no_duplicates(),
    {
        proof {
            use_type_invariant(&*self);
            lemma_insert_keys(self@, key@, value@);
        }
        let found = self.position(&key);
        let ghost before = self@;
        let ghost inserted = entries_insert(before, key@, value@);
        let mut entries: Vec<Entry> = Vec::new();
        std::mem::swap(&mut entries, &mut self.entries);
        assert(entries_model(entries) == before);
        match found {
            Some(i) => {
                entries.set(i, Entry { key, value });
            },
            None => {
                entries.push(Entry { key, value });
            },
        }
        assert(entries_model(entries) =~= inserted);
        self.entries = entries;
    }

    /// Freezes the map into a value. The map is given up, so the entries
    /// behind the value can never change.
    pub fn freeze(self) -> (value: Value)
        ensures
            value@ == ValueView::Dict(self@),
            entry_keys(self@).no_duplicates(),
    {
        proof {
            use_type_invariant(&self);
        }
        Value::Dict(Rc::new(self))
    }

    /// The value stored under `key`, if there is one.
    pub fn get_key(&self, key: &String) -> (found: Option<&Value>)
        ensures
            match found {
                Some(value) => entries_get(self@, key@) == Some(value@),
                None => entries_get(self@, key@) is None,
            },
    {
        match self.position(key) {
            Some(i) => Some(&self.entries[i].value),
            None => None,
        }
    }

    /// The value stored under `key`, if there is one.
    pub fn get(&self, key: &str) -> (found: Option<&Value>)
        ensures
            match found {
                Some(value) => entries_get(self@, key@) == Some(value@),
                None => entries_get(self@, key@) is None,
            },
    {
        let owned = key.to_owned();
        self.get_key(&owned)
    }

    /// Whether some entry has `key`.
    pub fn contains_key(&self, key: &str) -> (present: bool)
        ensures
            present == entry_keys(self@).contains(key@),
    {
        let owned = key.to_owned();
        proof {
            entry_keys(self@).index_of_first_ensures(key@);
        }
        self.position(&owned).is_some()
    }

    /// The key of entry `i`.
    pub fn key_at(&self, i: usize) -> (key: &String)
        requires
            i < self@.len(),
        ensures
            key@ == self@[i as int].0,
    {
        &self.entries[i].key
    }

    /// The value of entry `i`.
    pub fn value_at(&self, i: usize) -> (value: &Value)
        requires
            i < self@.len(),
        ensures
            value@ == self@[i as int].1,
    {
        &self.entries[i].value
    }

    /// The keys in entry order. No key occurs twice.
    pub fn keys(&self) -> (keys: Vec<String>)
        ensures
            string_views(keys@) == entry_keys(self@),
            string_views(keys@).no_duplicates(),
    {
        proof {
            use_type_invariant(self);
        }
        let mut keys: Vec<String> = Vec::new();
        let mut i: usize = 0;
        while i < self.entries.len()
            invariant
                i <= self.entries@.len(),
                keys@.len() == i,
                string_views(keys@) == entry_keys(self@).take(i as int),
            decreases self.entries@.len() - i,
        {
            let ghost before = keys@;
            keys.push(self.entries[i].key.clone());
            assert forall|k: int| 0 <= k < i + 1 implies string_views(keys@)[k] == entry_keys(
                self@,
            ).take(i + 1)[k] by {
                if k < i {
                    assert(string_views(before)[k] == entry_keys(self@).take(i as int)[k]);
                }
            }
            assert(string_views(keys@) =~= entry_keys(self@).take(i + 1));
            i += 1;
        }
        assert(entry_keys(self@).take(i as int) =~= entry_keys(self@));
        keys
    }

    /// Whether the two maps hold equal entries in the same order.
    pub fn same_as(&self, other: &ContextMap) -> (same: bool)
        ensures
            same == (self@ == other@),
        decreases self,
    {
        if self.entries.len() != other.entries.len() {
            assert(self@.len() != other@.len());
            return false;
        }
        let mut i: usize = 0;
        while i < self.entries.len()
            invariant
                i <= self.entries@.len(),
                self.entries@.len() == other.entries@.len(),
                forall|j: int| 0 <= j < i ==> self@[j] == other@[j],
            decreases self.entries@.len() - i,
        {
            if self.entries[i].key != other.entries[i].key || !self.entries[i].value.same_as(
                &other.entries[i].value,
            ) {
                assert(self@[i as int] != other@[i as int]);
                return false;
            }
            i += 1;
        }
        assert(self@ =~= other@);
        true
    }

    /// The position of `key` among the entries.
    fn position(&self, key: &String) -> (found: Option<usize>)
        ensures
            match found {
                Some(i) => entry_keys(self@).index_of_first(key@) == Some(i as int) && i < self@.len(),
                None => entry_keys(self@).index_of_first(key@) is None,
            },
    {
        let mut i: usize = 0;
        while i < self.entries.len()
            invariant
                i <= self.entries@.len(),
                forall|j: int| 0 <= j < i ==> entry_keys(self@)[j] != key@,
            decreases self.entries@.len() - i,
        {
            if self.entries[i].key == *key {
                proof {
                    assert(first_at(entry_keys(self@), key@, i as int));
                    lemma_first_index_is(entry_keys(self@), key@, i as int);
                }
                return Some(i);
            }
            i += 1;
        }
        proof {
            lemma_first_index_none(entry_keys(self@), key@);
        }
        None
    }
}

impl Default for ContextMap {
    /// An empty map.
    fn default() -> (map: Self)
        ensures
            map@ == Seq::<(Seq<char>, ValueView)>::empty(),
    {
        ContextMap::new()
    }
}

impl View for ContextMap {
    type V = Seq<(Seq<char>, ValueView)>;

    open spec fn view(&self) -> Seq<(Seq<char>, ValueView)> {
        self.model()
    }
}

} // verus!

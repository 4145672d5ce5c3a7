//! The merge view: a lazy overlay of mapping-like values in which earlier
//! sources take precedence.

use crate::model::{
    all_keys, distinct, lemma_all_keys_step, lemma_distinct_elements, lemma_distinct_push,
    lookup_first, ValueView,
};
use crate::value::{option_model, string_views, value_models, Value};
use vstd::prelude::*;

verus! {

/// An ordered list of sources that is read through on every lookup and
/// enumeration; nothing is copied or flattened.
#[derive(Debug)]
pub struct MergeView {
    pub sources: Vec<Value>,
}

impl MergeView {
    /// The models of the sources, in precedence order.
    pub open spec fn model(self) -> Seq<ValueView>
        decreases self,
    {
        Seq::new(
            self.sources@.len(),
            |i: int|
                if 0 <= i < self.sources@.len() {
                    self.sources@[i].model()
                } else {
                    ValueView::Undefined
                },
        )
    }
}

/// Whether `keys` holds a string equal to `key`.
pub fn holds_key(keys: &Vec<String>, key: &String) -> (present: bool)
    ensures
        present == string_views(keys@).contains(key@),
{
    let mut i: usize = 0;
    while i < keys.len()
        invariant
            i <= keys@.len(),
            forall|j: int| 0 <= j < i ==> string_views(keys@)[j] != key@,
        decreases keys@.len() - i,
    {
        if keys[i] == *key {
            assert(string_views(keys@)[i as int] == key@);
            return true;
        }
        i += 1;
    }
    false
}

impl MergeView {
    /// A merge view over `sources`, the first of them taking precedence.
    pub fn new(sources: Vec<Value>) -> (merge: Self)
        ensures
            merge.sources == sources,
            merge@ == value_models(sources@),
    {
        let merge = MergeView { sources };
        assert(merge@ =~= value_models(merge.sources@));
        merge
    }

    /// The number of sources.
    pub fn len(&self) -> (n: usize)
        ensures
            n == self@.len(),
    {
        self.sources.len()
    }

    /// The value under `key` in the first source that has the key.
    pub fn get_key(&self, key: &String) -> (found: Option<Value>)
        ensures
            option_model(found) == lookup_first(self@, key@),
        decreases self,
    {
        let mut i: usize = 0;
        assert(self@.skip(0) =~= self@);
        while i < self.sources.len()
            invariant
                i <= self.sources@.len(),
                lookup_first(self@, key@) == lookup_first(self@.skip(i as int), key@),
            decreases self.sources@.len() - i,
        {
            let hit = self.sources[i].get_key(key);
            if hit.is_some() {
                return hit;
            }
            assert(self@.skip(i as int).drop_first() =~= self@.skip(i + 1));
            i += 1;
        }
        None
    }

    /// The value under `key` in the first source that has the key.
    pub fn get(&self, key: &str) -> (found: Option<Value>)
        ensures
            option_model(found) == lookup_first(self@, key@),
    {
        let owned = key.to_owned();
        self.get_key(&owned)
    }

    /// The distinct keys of all sources, each where it is first met when the
    /// sources are enumerated one after another.
    pub fn keys(&self) -> (keys: Vec<String>)
        ensures
            string_views(keys@) == distinct(all_keys(self@)),
            string_views(keys@).no_duplicates(),
        decreases self,
    {
        let mut keys: Vec<String> = Vec::new();
        let mut i: usize = 0;
        assert(string_views(keys@) =~= distinct(all_keys(self@.take(0))));
        while i < self.sources.len()
            invariant
                i <= self.sources@.len(),
                string_views(keys@) == distinct(all_keys(self@.take(i as int))),
            decreases self.sources@.len() - i,
        {
            let source_keys = self.sources[i].keys();
            let ghost seen = all_keys(self@.take(i as int));
            let mut j: usize = 0;
            assert(seen + string_views(source_keys@).take(0) =~= seen);
            while j < source_keys.len()
                invariant
                    j <= source_keys@.len(),
                    string_views(keys@) == distinct(seen + string_views(source_keys@).take(j as int)),
                decreases source_keys@.len() - j,
            {
                let ghost before = keys@;
                let ghost prefix = seen + string_views(source_keys@).take(j as int);
                proof {
                    lemma_distinct_push(prefix, source_keys@[j as int]@);
                    assert(prefix.push(source_keys@[j as int]@) =~= seen + string_views(
                        source_keys@,
                    ).take(j + 1));
                }
                if !holds_key(&keys, &source_keys[j]) {
                    keys.push(source_keys[j].clone());
                    assert(string_views(keys@) =~= string_views(before).push(source_keys@[j as int]@));
                }
                j += 1;
            }
            proof {
                assert(string_views(source_keys@).take(j as int) =~= string_views(source_keys@));
                lemma_all_keys_step(self@, i as int);
            }
            i += 1;
        }
        proof {
            assert(self@.take(i as int) =~= self@);
            lemma_distinct_elements(all_keys(self@));
        }
        keys
    }
}

impl View for MergeView {
    type V = Seq<ValueView>;

    open spec fn view(&self) -> Seq<ValueView> {
        self.model()
    }
}

} // verus!

//! The dynamic value: one uniform, cheaply shared representation of the data
//! that a template can see.

use crate::context_map::ContextMap;
use crate::merge::MergeView;
use crate::laws::enumerated_keys_are_found;
use crate::model::{entries_insert_all, keys_of, lemma_insert_all_step, lookup, ValueView};
use std::rc::Rc;
use vstd::prelude::*;

verus! {

/// A dynamic value. Composite payloads are reference counted, so a clone
/// shares them instead of copying.
#[derive(Debug)]
pub enum Value {
    /// The absence of a value.
    Undefined,
    /// The explicit "none" value.
    Null,
    Bool(bool),
    Int(i64),
    /// A double-precision number, held as its IEEE 754 bit pattern.
    Real(u64),
    Str(Rc<String>),
    Bytes(Rc<Vec<u8>>),
    List(Rc<Vec<Value>>),
    /// A frozen ordered context map.
    Dict(Rc<ContextMap>),
    /// A lazy overlay of several sources.
    Merge(Rc<MergeView>),
    /// The keyword bag that ends an argument list.
    Kwargs(Rc<ContextMap>),
    /// A function known to the evaluator under this handle.
    Callable(u64),
}

/// The views of some strings, in order.
pub open spec fn string_views(strings: Seq<String>) -> Seq<Seq<char>> {
    Seq::new(strings.len(), |i: int| strings[i]@)
}

/// The model of an optional value.
pub open spec fn option_model(found: Option<Value>) -> Option<ValueView> {
    match found {
        Some(value) => Some(value@),
        None => None,
    }
}

/// The models of some (key, value) pairs, in order.
pub open spec fn pair_models(pairs: Seq<(String, Value)>) -> Seq<(Seq<char>, ValueView)> {
    Seq::new(pairs.len(), |i: int| (pairs[i].0@, pairs[i].1@))
}

/// The models of some values, in order.
pub open spec fn value_models(values: Seq<Value>) -> Seq<ValueView> {
    Seq::new(values.len(), |i: int| values[i]@)
}

impl Value {
    /// The mathematical value that this value stands for.
    pub open spec fn model(self) -> ValueView
        decreases self,
    {
        match self {
            Value::Undefined => ValueView::Undefined,
            Value::Null => ValueView::Null,
            Value::Bool(b) => ValueView::Bool(b),
            Value::Int(i) => ValueView::Int(i as int),
            Value::Real(bits) => ValueView::Real(bits),
            Value::Str(s) => ValueView::Str(s@),
            Value::Bytes(b) => ValueView::Bytes(b@),
            Value::List(items) => ValueView::List(
                Seq::new(
                    items@.len(),
                    |i: int|
                        if 0 <= i < items@.len() {
                            items@[i].model()
                        } else {
                            ValueView::Undefined
                        },
                ),
            ),
            Value::Dict(map) => ValueView::Dict(map.model()),
            Value::Merge(merge) => ValueView::Merge(merge.model()),
            Value::Kwargs(map) => ValueView::Kwargs(map.model()),
            Value::Callable(handle) => ValueView::Callable(handle),
        }
    }
}

impl Value {
    /// Looks `key` up. Only mapping-like values have keys; every other value
    /// answers `None`.
    pub fn get_key(&self, key: &String) -> (found: Option<Value>)
        ensures
            option_model(found) == lookup(self@, key@),
        decreases self,
    {
        match self {
            Value::Dict(map) => match map.get_key(key) {
                Some(value) => Some(value.clone()),
                None => None,
            },
            Value::Kwargs(map) => match map.get_key(key) {
                Some(value) => Some(value.clone()),
                None => None,
            },
            Value::Merge(merge) => merge.get_key(key),
            _ => None,
        }
    }

    /// Looks `key` up. `None` says that the value has no such key; an entry
    /// that holds an undefined value is found like any other.
    pub fn get(&self, key: &str) -> (found: Option<Value>)
        ensures
            option_model(found) == lookup(self@, key@),
    {
        let owned = key.to_owned();
        self.get_key(&owned)
    }

    /// The keys that the value enumerates, each of them once. Values that are
    /// not mapping-like enumerate nothing.
    pub fn keys(&self) -> (keys: Vec<String>)
        ensures
            string_views(keys@) == keys_of(self@),
            string_views(keys@).no_duplicates(),
        decreases self,
    {
        match self {
            Value::Dict(map) => map.keys(),
            Value::Kwargs(map) => map.keys(),
            Value::Merge(merge) => merge.keys(),
            _ => {
                let keys: Vec<String> = Vec::new();
                assert(string_views(keys@) =~= Seq::<Seq<char>>::empty());
                keys
            },
        }
    }
}

impl Value {
    /// The value of a boolean.
    pub fn from_bool(b: bool) -> (value: Value)
        ensures
            value@ == ValueView::Bool(b),
    {
        Value::Bool(b)
    }

    /// The value of a signed integer.
    pub fn from_i64(i: i64) -> (value: Value)
        ensures
            value@ == ValueView::Int(i as int),
    {
        Value::Int(i)
    }

    /// The value of an unsigned integer. One that is too large for an integer
    /// value becomes the undefined value.
    pub fn from_u64(n: u64) -> (value: Value)
        ensures
            n <= i64::MAX ==> value@ == ValueView::Int(n as int),
            n > i64::MAX ==> value@ == ValueView::Undefined,
    {
        if n <= 0x7fff_ffff_ffff_ffff {
            Value::Int(n as i64)
        } else {
            Value::Undefined
        }
    }

    /// The value of the double-precision number with the bit pattern `bits`.
    pub fn from_real_bits(bits: u64) -> (value: Value)
        ensures
            value@ == ValueView::Real(bits),
    {
        Value::Real(bits)
    }

    /// The value of a string.
    pub fn from_str(s: &str) -> (value: Value)
        ensures
            value@ == ValueView::Str(s@),
    {
        Value::Str(Rc::new(s.to_owned()))
    }

    /// The value of a string, which is taken over as it is.
    pub fn from_string(s: String) -> (value: Value)
        ensures
            value@ == ValueView::Str(s@),
    {
        Value::Str(Rc::new(s))
    }

    /// The value of a byte string.
    pub fn from_bytes(bytes: Vec<u8>) -> (value: Value)
        ensures
            value@ == ValueView::Bytes(bytes@),
    {
        Value::Bytes(Rc::new(bytes))
    }

    /// The sequence value of `items`.
    pub fn from_list(items: Vec<Value>) -> (value: Value)
        ensures
            value@ == ValueView::List(value_models(items@)),
    {
        let value = Value::List(Rc::new(items));
        assert(value@->List_0 =~= value_models(items@));
        value
    }

    /// The value of something optional: what is absent becomes the none value.
    pub fn from_option(value: Option<Value>) -> (converted: Value)
        ensures
            converted@ == match value {
                Some(inner) => inner@,
                None => ValueView::Null,
            },
    {
        match value {
            Some(inner) => inner,
            None => Value::Null,
        }
    }

    /// The mapping value of `pairs`: each pair is inserted in turn, so a key
    /// that comes again keeps its first place and takes the later value.
    pub fn from_pairs(pairs: Vec<(String, Value)>) -> (value: Value)
        ensures
            value@ == ValueView::Dict(entries_insert_all(Seq::empty(), pair_models(pairs@))),
    {
        let mut map = ContextMap::new();
        let ghost models = pair_models(pairs@);
        let mut i: usize = 0;
        assert(models.take(0) =~= Seq::<(Seq<char>, ValueView)>::empty());
        while i < pairs.len()
            invariant
                i <= pairs@.len(),
                models == pair_models(pairs@),
                map@ == entries_insert_all(Seq::empty(), models.take(i as int)),
            decreases pairs@.len() - i,
        {
            proof {
                lemma_insert_all_step(Seq::empty(), models.take(i as int), models[i as int]);
                assert(models.take(i as int).push(models[i as int]) =~= models.take(i + 1));
            }
            map.insert(pairs[i].0.clone(), pairs[i].1.clone());
            i += 1;
        }
        assert(models.take(i as int) =~= models);
        map.freeze()
    }

    /// The value that stands for a merge view.
    pub fn from_merge(merge: MergeView) -> (value: Value)
        ensures
            value@ == ValueView::Merge(merge@),
    {
        Value::Merge(Rc::new(merge))
    }

    /// The value of the function that the evaluator knows as `handle`.
    pub fn from_callable(handle: u64) -> (value: Value)
        ensures
            value@ == ValueView::Callable(handle),
    {
        Value::Callable(handle)
    }

    /// Whether this is the undefined value.
    pub fn is_undefined(&self) -> (undefined: bool)
        ensures
            undefined == (self@ is Undefined),
    {
        match self {
            Value::Undefined => true,
            _ => false,
        }
    }

    /// Whether this is the none value.
    pub fn is_none(&self) -> (none: bool)
        ensures
            none == (self@ is Null),
    {
        match self {
            Value::Null => true,
            _ => false,
        }
    }

    /// Whether lookups and enumeration read the value as a mapping.
    pub fn is_mapping(&self) -> (mapping: bool)
        ensures
            mapping == (self@ is Dict || self@ is Kwargs || self@ is Merge),
    {
        match self {
            Value::Dict(_) => true,
            Value::Kwargs(_) => true,
            Value::Merge(_) => true,
            _ => false,
        }
    }

    /// Whether this is a keyword bag.
    pub fn is_kwargs(&self) -> (kwargs: bool)
        ensures
            kwargs == (self@ is Kwargs),
    {
        match self {
            Value::Kwargs(_) => true,
            _ => false,
        }
    }

    /// The boolean that the value holds.
    pub fn as_bool(&self) -> (held: Option<bool>)
        ensures
            held == match self@ {
                ValueView::Bool(b) => Some(b),
                _ => None,
            },
    {
        match self {
            Value::Bool(b) => Some(*b),
            _ => None,
        }
    }

    /// The integer that the value holds.
    pub fn as_i64(&self) -> (held: Option<i64>)
        ensures
            match held {
                Some(i) => self@ == ValueView::Int(i as int),
                None => !(self@ is Int),
            },
    {
        match self {
            Value::Int(i) => Some(*i),
            _ => None,
        }
    }

    /// The bit pattern of the double-precision number that the value holds.
    pub fn as_real_bits(&self) -> (held: Option<u64>)
        ensures
            held == match self@ {
                ValueView::Real(bits) => Some(bits),
                _ => None,
            },
    {
        match self {
            Value::Real(bits) => Some(*bits),
            _ => None,
        }
    }

    /// The string that the value holds.
    pub fn as_str(&self) -> (held: Option<&str>)
        ensures
            match held {
                Some(s) => self@ == ValueView::Str(s@),
                None => !(self@ is Str),
            },
    {
        match self {
            Value::Str(s) => Some(s.as_str()),
            _ => None,
        }
    }

    /// The bytes that the value holds.
    pub fn as_bytes(&self) -> (held: Option<&Vec<u8>>)
        ensures
            match held {
                Some(bytes) => self@ == ValueView::Bytes(bytes@),
                None => !(self@ is Bytes),
            },
    {
        match self {
            Value::Bytes(bytes) => Some(&**bytes),
            _ => None,
        }
    }

    /// The handle of the function that the value stands for.
    pub fn as_callable(&self) -> (held: Option<u64>)
        ensures
            held == match self@ {
                ValueView::Callable(handle) => Some(handle),
                _ => None,
            },
    {
        match self {
            Value::Callable(handle) => Some(*handle),
            _ => None,
        }
    }

    /// The items of a sequence value.
    pub fn as_list(&self) -> (held: Option<&Vec<Value>>)
        ensures
            match held {
                Some(items) => self@ == ValueView::List(value_models(items@)),
                None => !(self@ is List),
            },
    {
        match self {
            Value::List(items) => {
                assert(self@->List_0 =~= value_models(items@));
                Some(&**items)
            },
            _ => None,
        }
    }

    /// The enumeration of the value: each key that it enumerates, in order,
    /// with what a lookup of the key gives.
    pub fn items(&self) -> (items: Vec<(String, Value)>)
        ensures
            items@.len() == keys_of(self@).len(),
            forall|i: int|
                0 <= i < items@.len() ==> (#[trigger] items@[i]).0@ == keys_of(self@)[i] && lookup(
                    self@,
                    keys_of(self@)[i],
                ) == Some(items@[i].1@),
    {
        let keys = self.keys();
        let mut items: Vec<(String, Value)> = Vec::new();
        let mut i: usize = 0;
        while i < keys.len()
            invariant
                i <= keys@.len(),
                string_views(keys@) == keys_of(self@),
                items@.len() == i,
                forall|k: int|
                    0 <= k < i ==> (#[trigger] items@[k]).0@ == keys_of(self@)[k] && lookup(
                        self@,
                        keys_of(self@)[k],
                    ) == Some(items@[k].1@),
            decreases keys@.len() - i,
        {
            let found = self.get_key(&keys[i]);
            proof {
                assert(string_views(keys@)[i as int] == keys@[i as int]@);
                assert(keys_of(self@).contains(keys@[i as int]@));
                enumerated_keys_are_found(self@, keys@[i as int]@);
            }
            match found {
                Some(value) => {
                    items.push((keys[i].clone(), value));
                },
                None => {},
            }
            i += 1;
        }
        assert(keys@.len() == keys_of(self@).len()) by {
            assert(string_views(keys@).len() == keys@.len());
        }
        items
    }
}

impl View for Value {
    type V = ValueView;

    open spec fn view(&self) -> ValueView {
        self.model()
    }
}

impl Clone for Value {
    /// Shares the payload: the clone is the same value.
    fn clone(&self) -> (res: Self)
        ensures
            res == *self,
    {
        match self {
            Value::Undefined => Value::Undefined,
            Value::Null => Value::Null,
            Value::Bool(b) => Value::Bool(*b),
            Value::Int(i) => Value::Int(*i),
            Value::Real(bits) => Value::Real(*bits),
            Value::Str(s) => Value::Str(s.clone()),
            Value::Bytes(b) => Value::Bytes(b.clone()),
            Value::List(items) => Value::List(items.clone()),
            Value::Dict(map) => Value::Dict(map.clone()),
            Value::Merge(merge) => Value::Merge(merge.clone()),
            Value::Kwargs(map) => Value::Kwargs(map.clone()),
            Value::Callable(handle) => Value::Callable(*handle),
        }
    }
}

} // verus!

//! Equality of values: two values are equal when they stand for the same
//! mathematical value, however their payloads are shared.

use crate::merge::MergeView;
use crate::value::{value_models, Value};
use vstd::prelude::*;
use vstd::std_specs::cmp::PartialEqSpecImpl;

verus! {

/// Whether two byte strings hold the same bytes.
pub fn same_bytes(a: &Vec<u8>, b: &Vec<u8>) -> (same: bool)
    ensures
        same == (a@ == b@),
{
    if a.len() != b.len() {
        return false;
    }
    let mut i: usize = 0;
    while i < a.len()
        invariant
            i <= a@.len(),
            a@.len() == b@.len(),
            forall|j: int| 0 <= j < i ==> a@[j] == b@[j],
        decreases a@.len() - i,
    {
        if a[i] != b[i] {
            return false;
        }
        i += 1;
    }
    assert(a@ =~= b@);
    true
}

/// Whether two sequences of values hold equal values at every place.
pub fn same_values(a: &Vec<Value>, b: &Vec<Value>) -> (same: bool)
    ensures
        same == (value_models(a@) == value_models(b@)),
    decreases a,
{
    if a.len() != b.len() {
        assert(value_models(a@).len() != value_models(b@).len());
        return false;
    }
    let mut i: usize = 0;
    while i < a.len()
        invariant
            i <= a@.len(),
            a@.len() == b@.len(),
            forall|j: int| 0 <= j < i ==> a@[j]@ == b@[j]@,
        decreases a@.len() - i,
    {
        if !a[i].same_as(&b[i]) {
            assert(value_models(a@)[i as int] != value_models(b@)[i as int]);
            return false;
        }
        i += 1;
    }
    assert(value_models(a@) =~= value_models(b@));
    true
}

impl MergeView {
    /// Whether the two views have equal sources in the same order.
    pub fn same_as(&self, other: &MergeView) -> (same: bool)
        ensures
            same == (self@ == other@),
        decreases self,
    {
        assert(self@ =~= value_models(self.sources@));
        assert(other@ =~= value_models(other.sources@));
        same_values(&self.sources, &other.sources)
    }
}

impl Value {
    /// Whether the two values stand for the same mathematical value: the same
    /// kind with equal contents. Two real numbers are equal when their bit
    /// patterns are, and mappings when they hold equal entries in the same
    /// order.
    pub fn same_as(&self, other: &Value) -> (same: bool)
        ensures
            same == (self@ == other@),
        decreases self,
    {
        match (self, other) {
            (Value::Undefined, Value::Undefined) => true,
            (Value::Null, Value::Null) => true,
            (Value::Bool(a), Value::Bool(b)) => *a == *b,
            (Value::Int(a), Value::Int(b)) => *a == *b,
            (Value::Real(a), Value::Real(b)) => *a == *b,
            (Value::Str(a), Value::Str(b)) => **a == **b,
            (Value::Bytes(a), Value::Bytes(b)) => same_bytes(a, b),
            (Value::List(a), Value::List(b)) => {
                assert(self@->List_0 =~= value_models(a@));
                assert(other@->List_0 =~= value_models(b@));
                same_values(a, b)
            },
            (Value::Dict(a), Value::Dict(b)) => a.same_as(b),
            (Value::Merge(a), Value::Merge(b)) => a.same_as(b),
            (Value::Kwargs(a), Value::Kwargs(b)) => a.same_as(b),
            (Value::Callable(a), Value::Callable(b)) => *a == *b,
            _ => false,
        }
    }
}

impl PartialEq for Value {
    fn eq(&self, other: &Value) -> (same: bool) {
        self.same_as(other)
    }
}

impl PartialEqSpecImpl for Value {
    open spec fn obeys_eq_spec() -> bool {
        true
    }

    open spec fn eq_spec(&self, other: &Value) -> bool {
        self@ == other@
    }
}

} // verus!

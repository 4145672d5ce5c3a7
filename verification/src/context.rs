//! Building a render context: named entries first, then any number of other
//! values merged in behind them.

use crate::context_map::ContextMap;
use crate::env::{EnvSlot, Environment};
use crate::merge::MergeView;
use crate::model::{entries_insert, entry_keys, ValueView};
use crate::value::{value_models, Value};
use std::rc::Rc;
use vstd::prelude::*;

verus! {

/// A fresh, empty context map.
pub fn make() -> (ctx: ContextMap)
    ensures
        ctx@ == Seq::<(Seq<char>, ValueView)>::empty(),
{
    ContextMap::new()
}

/// Puts `value` under `key` into `ctx`. A key that is already there keeps its
/// position and takes the new value.
pub fn add(ctx: &mut ContextMap, key: &'static str, value: Value)
    ensures
        final(ctx)@ == entries_insert(old(ctx)@, key@, value@),
        entry_keys(final(ctx)@).no_duplicates(),
{
    ctx.insert(key.to_owned(), value);
}

/// Freezes `ctx` into a value. The map is given up: nothing can change the
/// entries behind the value afterwards.
pub fn build(ctx: ContextMap) -> (value: Value)
    ensures
        value@ == ValueView::Dict(ctx@),
        entry_keys(ctx@).no_duplicates(),
{
    ctx.freeze()
}

/// A merge view over `sources`, the first of them taking precedence. No source
/// is read or copied here.
pub fn merge(sources: Vec<Value>) -> (value: Value)
    ensures
        value@ == ValueView::Merge(value_models(sources@)),
{
    Value::Merge(Rc::new(MergeView::new(sources)))
}

/// The context made of the entries of `ctx` with `others` merged in behind
/// them, in their order. With nothing to merge this is the frozen `ctx` itself.
pub fn build_merged(ctx: ContextMap, others: Vec<Value>) -> (value: Value)
    ensures
        others@.len() == 0 ==> value@ == ValueView::Dict(ctx@),
        others@.len() > 0 ==> value@ == ValueView::Merge(
            seq![ValueView::Dict(ctx@)] + value_models(others@),
        ),
{
    let own = build(ctx);
    if others.is_empty() {
        own
    } else {
        let mut sources = others;
        sources.insert(0, own);
        assert(value_models(sources@) =~= seq![ValueView::Dict(ctx@)] + value_models(others@));
        merge(sources)
    }
}

/// The default environment of the execution context that owns `slot`: made on
/// the first call, handed out again on every later one.
pub fn thread_local_env(slot: &mut EnvSlot) -> (env: Rc<Environment>)
    ensures
        final(slot).current() == Some(*env),
        old(slot).current() is Some ==> old(slot).current() == Some(*env),
        old(slot).current() is None ==> *env == Environment::default_settings(),
{
    slot.get_or_create()
}

} // verus!

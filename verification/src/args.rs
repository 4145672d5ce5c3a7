//! Argument lists for dynamic calls: positional values in order, then at most
//! one keyword bag that collects every keyword argument.

use crate::context_map::ContextMap;
use crate::model::{entries_insert, entries_insert_all, lemma_insert_all_step, ValueView};
use crate::value::{value_models, Value};
use std::rc::Rc;
use vstd::prelude::*;

verus! {

/// One item of a call's argument list.
#[derive(Debug)]
pub enum Arg {
    /// A bare value.
    Positional(Value),
    /// A value passed under a name.
    Keyword(String, Value),
}

/// Mathematical model of an [`Arg`].
pub enum ArgView {
    Positional(ValueView),
    Keyword(Seq<char>, ValueView),
}

impl View for Arg {
    type V = ArgView;

    open spec fn view(&self) -> ArgView {
        match self {
            Arg::Positional(value) => ArgView::Positional(value@),
            Arg::Keyword(name, value) => ArgView::Keyword(name@, value@),
        }
    }
}

/// The models of some argument items, in order.
pub open spec fn arg_views(items: Seq<Arg>) -> Seq<ArgView> {
    Seq::new(items.len(), |i: int| items[i]@)
}

/// The value of a positional item.
pub open spec fn positional_of(item: ArgView) -> Option<ValueView> {
    match item {
        ArgView::Positional(value) => Some(value),
        ArgView::Keyword(_, _) => None,
    }
}

/// The name and value of a keyword item.
pub open spec fn keyword_of(item: ArgView) -> Option<(Seq<char>, ValueView)> {
    match item {
        ArgView::Positional(_) => None,
        ArgView::Keyword(name, value) => Some((name, value)),
    }
}

/// The positional values among `items`, in their relative order.
pub open spec fn positional_values(items: Seq<ArgView>) -> Seq<ValueView> {
    items.filter_map(|item: ArgView| positional_of(item))
}

/// The keyword arguments among `items`, in their relative order.
pub open spec fn keyword_pairs(items: Seq<ArgView>) -> Seq<(Seq<char>, ValueView)> {
    items.filter_map(|item: ArgView| keyword_of(item))
}

/// The keyword bag of `items`: every keyword argument inserted, in order, into
/// an empty ordered map.
pub open spec fn keyword_bag(items: Seq<ArgView>) -> Seq<(Seq<char>, ValueView)> {
    entries_insert_all(Seq::empty(), keyword_pairs(items))
}

/// Positional values followed by the keyword bag, which is left out when empty.
pub open spec fn assemble(
    positional: Seq<ValueView>,
    keywords: Seq<(Seq<char>, ValueView)>,
) -> Seq<ValueView> {
    if keywords.len() == 0 {
        positional
    } else {
        positional.push(ValueView::Kwargs(keywords))
    }
}

/// The argument list that `items` stand for.
pub open spec fn argument_list(items: Seq<ArgView>) -> Seq<ValueView> {
    assemble(positional_values(items), keyword_bag(items))
}

/// Collects the arguments of one call.
#[derive(Debug)]
pub struct ArgsBuilder {
    positional: Vec<Value>,
    keywords: ContextMap,
}

impl ArgsBuilder {
    /// The positional values given so far.
    pub closed spec fn positional(self) -> Seq<ValueView> {
        value_models(self.positional@)
    }

    /// The keyword bag as it stands.
    pub closed spec fn keywords(self) -> Seq<(Seq<char>, ValueView)> {
        self.keywords@
    }

    /// A builder that holds no argument.
    pub fn new() -> (builder: Self)
        ensures
            builder.positional() == Seq::<ValueView>::empty(),
            builder.keywords() == Seq::<(Seq<char>, ValueView)>::empty(),
    {
        let builder = ArgsBuilder { positional: Vec::new(), keywords: ContextMap::new() };
        assert(builder.positional() =~= Seq::<ValueView>::empty());
        builder
    }

    /// Appends a positional value.
    pub fn arg(&mut self, value: Value)
        ensures
            final(self).positional() == old(self).positional().push(value@),
            final(self).keywords() == old(self).keywords(),
    {
        self.positional.push(value);
        assert(self.positional() =~= old(self).positional().push(value@));
    }

    /// Records a keyword argument. A name given before keeps its place in the
    /// bag and takes the new value.
    pub fn kwarg(&mut self, name: String, value: Value)
        ensures
            final(self).positional() == old(self).positional(),
            final(self).keywords() == entries_insert(old(self).keywords(), name@, value@),
    {
        self.keywords.insert(name, value);
    }

    /// The finished argument list.
    pub fn finish(self) -> (args: Vec<Value>)
        ensures
            value_models(args@) == assemble(self.positional(), self.keywords()),
    {
        let ArgsBuilder { positional, keywords } = self;
        let mut args = positional;
        if !keywords.is_empty() {
            let ghost bag = keywords@;
            args.push(Value::Kwargs(Rc::new(keywords)));
            assert(value_models(args@) =~= value_models(positional@).push(ValueView::Kwargs(bag)));
        }
        args
    }
}

/// Builds the argument list of a call from `items`: the positional values in
/// the order given, then one keyword bag if any keyword argument was given.
pub fn build_args(items: Vec<Arg>) -> (args: Vec<Value>)
    ensures
        value_models(args@) == argument_list(arg_views(items@)),
{
    let mut builder = ArgsBuilder::new();
    let ghost views = arg_views(items@);
    let mut i: usize = 0;
    assert(views.take(0) =~= Seq::<ArgView>::empty());
    while i < items.len()
        invariant
            i <= items@.len(),
            views == arg_views(items@),
            builder.positional() == positional_values(views.take(i as int)),
            builder.keywords() == keyword_bag(views.take(i as int)),
        decreases items@.len() - i,
    {
        proof {
            views.lemma_filter_map_take_succ(|item: ArgView| positional_of(item), i as int);
            views.lemma_filter_map_take_succ(|item: ArgView| keyword_of(item), i as int);
        }
        match &items[i] {
            Arg::Positional(value) => {
                builder.arg(value.clone());
                assert(positional_values(views.take(i + 1)) =~= positional_values(
                    views.take(i as int),
                ).push(value@));
                assert(keyword_pairs(views.take(i + 1)) =~= keyword_pairs(views.take(i as int)));
            },
            Arg::Keyword(name, value) => {
                builder.kwarg(name.clone(), value.clone());
                assert(positional_values(views.take(i + 1)) =~= positional_values(
                    views.take(i as int),
                ));
                assert(keyword_pairs(views.take(i + 1)) =~= keyword_pairs(views.take(i as int)).push(
                    (name@, value@),
                ));
                proof {
                    lemma_insert_all_step(
                        Seq::empty(),
                        keyword_pairs(views.take(i as int)),
                        (name@, value@),
                    );
                }
            },
        }
        i += 1;
    }
    assert(views.take(i as int) =~= views);
    builder.finish()
}

} // verus!

//! What holds of ordered maps, merge views and argument lists in general,
//! stated over the model and proved.

use crate::args::{argument_list, keyword_bag, keyword_pairs, positional_values, ArgView};
use crate::model::{
    all_keys, distinct, entries_get, entries_insert, entries_insert_all, entry_keys, first_at,
    first_hit, keys_of, last_value, lemma_all_keys_contains, lemma_distinct_elements,
    lemma_distinct_of_distinct, lemma_distinct_order, lemma_distinct_push, lemma_first_index_is,
    lemma_get_after_insert, lemma_insert_keys, lemma_insert_nonempty, lemma_lookup_first, lookup,
    lookup_first, ValueView,
};
use vstd::prelude::*;

verus! {

/// Inserting under a key that the map has leaves every key where it is and
/// replaces the value at the key's position, and nothing else.
pub proof fn insert_existing_key_updates_in_place(
    entries: Seq<(Seq<char>, ValueView)>,
    key: Seq<char>,
    value: ValueView,
    i: int,
)
    requires
        first_at(entry_keys(entries), key, i),
    ensures
        entries_insert(entries, key, value) == entries.update(i, (key, value)),
        entry_keys(entries_insert(entries, key, value)) == entry_keys(entries),
{
    lemma_first_index_is(entry_keys(entries), key, i);
    assert(entry_keys(entries.update(i, (key, value))) =~= entry_keys(entries));
}

/// Inserting under a key that the map does not have appends the entry and
/// leaves the others as they are.
pub proof fn insert_new_key_appends(
    entries: Seq<(Seq<char>, ValueView)>,
    key: Seq<char>,
    value: ValueView,
)
    requires
        !entry_keys(entries).contains(key),
    ensures
        entries_insert(entries, key, value) == entries.push((key, value)),
{
    entry_keys(entries).index_of_first_ensures(key);
}

/// After any run of insertions into an empty map, the map enumerates the keys
/// in the order in which each was first inserted, none of them twice, and
/// holds under each key the value that was inserted under it last.
pub proof fn insertions_keep_first_order_and_last_value(pairs: Seq<(Seq<char>, ValueView)>)
    ensures
        entry_keys(entries_insert_all(Seq::empty(), pairs)) == distinct(entry_keys(pairs)),
        entry_keys(entries_insert_all(Seq::empty(), pairs)).no_duplicates(),
        forall|key: Seq<char>|
            #[trigger] entries_get(entries_insert_all(Seq::empty(), pairs), key) == last_value(
                pairs,
                key,
            ),
    decreases pairs.len(),
{
    let built = entries_insert_all(Seq::empty(), pairs);
    if pairs.len() == 0 {
        assert(entry_keys(built) =~= distinct(entry_keys(pairs)));
        assert forall|key: Seq<char>| #[trigger] entries_get(built, key) == last_value(
            pairs,
            key,
        ) by {
            entry_keys(built).index_of_first_ensures(key);
        }
    } else {
        let front = pairs.drop_last();
        let before = entries_insert_all(Seq::empty(), front);
        let (name, value) = pairs.last();
        insertions_keep_first_order_and_last_value(front);
        lemma_insert_keys(before, name, value);
        assert(entry_keys(pairs) =~= entry_keys(front).push(name));
        lemma_distinct_push(entry_keys(front), name);
        assert forall|key: Seq<char>| #[trigger] entries_get(built, key) == last_value(
            pairs,
            key,
        ) by {
            lemma_get_after_insert(before, name, value, key);
            assert(entries_get(before, key) == last_value(front, key));
        }
    }
}

/// Lookup in a merge view gives what the lowest-indexed source that has the
/// key gives.
pub proof fn merge_lookup_takes_first_source(sources: Seq<ValueView>, key: Seq<char>, i: int)
    requires
        first_hit(sources, key, i),
    ensures
        lookup(ValueView::Merge(sources), key) == lookup(sources[i], key),
{
    lemma_lookup_first(sources, key);
    match lookup_first(sources, key) {
        Some(found) => {
            let k = choose|k: int|
                #[trigger] first_hit(sources, key, k) && lookup(sources[k], key) == Some(found);
            if k < i {
                assert(lookup(sources[k], key) is None);
            }
            if i < k {
                assert(lookup(sources[i], key) is None);
            }
        },
        None => {
            assert(lookup(sources[i], key) is None);
        },
    }
}

/// Lookup in a merge view finds nothing exactly if no source has the key.
pub proof fn merge_lookup_misses_without_source(sources: Seq<ValueView>, key: Seq<char>)
    ensures
        lookup(ValueView::Merge(sources), key) is None <==> forall|i: int|
            0 <= i < sources.len() ==> (#[trigger] lookup(sources[i], key)) is None,
{
    lemma_lookup_first(sources, key);
    match lookup_first(sources, key) {
        Some(found) => {
            let k = choose|k: int|
                #[trigger] first_hit(sources, key, k) && lookup(sources[k], key) == Some(found);
            assert(lookup(sources[k], key) is Some);
        },
        None => {},
    }
}

/// A merge view enumerates a key exactly if one of its sources does, and no
/// key twice.
pub proof fn merge_keys_are_the_distinct_source_keys(sources: Seq<ValueView>)
    ensures
        keys_of(ValueView::Merge(sources)).no_duplicates(),
        forall|key: Seq<char>|
            #[trigger] keys_of(ValueView::Merge(sources)).contains(key) <==> exists|i: int|
                0 <= i < sources.len() && (#[trigger] keys_of(sources[i])).contains(key),
{
    lemma_distinct_elements(all_keys(sources));
    assert forall|key: Seq<char>|
        #[trigger] keys_of(ValueView::Merge(sources)).contains(key) <==> exists|i: int|
            0 <= i < sources.len() && (#[trigger] keys_of(sources[i])).contains(key) by {
        lemma_all_keys_contains(sources, key);
    }
}

/// A merge view enumerates its keys in the order in which they are first met
/// when the sources are enumerated one after another: of two keys that it
/// lists, the earlier one first occurs earlier in that scan.
pub proof fn merge_keys_follow_first_appearance(sources: Seq<ValueView>, a: int, b: int)
    requires
        0 <= a < b < keys_of(ValueView::Merge(sources)).len(),
    ensures
        exists|p: int, q: int|
            p < q && #[trigger] first_at(
                all_keys(sources),
                keys_of(ValueView::Merge(sources))[a],
                p,
            ) && #[trigger] first_at(all_keys(sources), keys_of(ValueView::Merge(sources))[b], q),
{
    lemma_distinct_order(all_keys(sources), a, b);
}

/// Scanning one more source appends its enumeration to the scan.
pub proof fn scan_visits_sources_in_order(sources: Seq<ValueView>, next: ValueView)
    ensures
        all_keys(sources.push(next)) == all_keys(sources) + keys_of(next),
        all_keys(Seq::empty()) == Seq::<Seq<char>>::empty(),
{
    assert(sources.push(next).drop_last() =~= sources);
}

/// A merge view over no source has no key and finds nothing.
pub proof fn merge_of_nothing_is_empty(key: Seq<char>)
    ensures
        keys_of(ValueView::Merge(Seq::empty())) == Seq::<Seq<char>>::empty(),
        lookup(ValueView::Merge(Seq::empty()), key) is None,
{
}

/// A merge view over one source finds what the source finds and enumerates
/// what the source enumerates.
pub proof fn merge_of_one_is_the_source(source: ValueView, key: Seq<char>)
    requires
        keys_of(source).no_duplicates(),
    ensures
        lookup(ValueView::Merge(seq![source]), key) == lookup(source, key),
        keys_of(ValueView::Merge(seq![source])) == keys_of(source),
{
    let sources = seq![source];
    assert(sources.drop_first() =~= Seq::<ValueView>::empty());
    assert(sources.drop_last() =~= Seq::<ValueView>::empty());
    assert(lookup_first(sources.drop_first(), key) is None);
    assert(all_keys(sources.drop_last()) =~= Seq::<Seq<char>>::empty());
    assert(all_keys(sources) =~= keys_of(source));
    lemma_distinct_of_distinct(keys_of(source));
}

/// A value enumerates a key exactly if looking the key up finds something.
pub proof fn enumerated_keys_are_found(v: ValueView, key: Seq<char>)
    ensures
        keys_of(v).contains(key) <==> lookup(v, key) is Some,
    decreases v,
{
    match v {
        ValueView::Dict(entries) => {
            entry_keys(entries).index_of_first_ensures(key);
        },
        ValueView::Kwargs(entries) => {
            entry_keys(entries).index_of_first_ensures(key);
        },
        ValueView::Merge(sources) => {
            lemma_distinct_elements(all_keys(sources));
            lemma_all_keys_contains(sources, key);
            lemma_lookup_first(sources, key);
            assert forall|i: int| 0 <= i < sources.len() implies ((#[trigger] keys_of(
                sources[i],
            )).contains(key) <==> lookup(sources[i], key) is Some) by {
                enumerated_keys_are_found(sources[i], key);
            }
            match lookup_first(sources, key) {
                Some(found) => {
                    let k = choose|k: int|
                        #[trigger] first_hit(sources, key, k) && lookup(sources[k], key) == Some(
                            found,
                        );
                    assert(keys_of(sources[k]).contains(key));
                },
                None => {
                    if all_keys(sources).contains(key) {
                        let i = choose|i: int|
                            0 <= i < sources.len() && (#[trigger] keys_of(sources[i])).contains(
                                key,
                            );
                        assert(lookup(sources[i], key) is None);
                    }
                },
            }
        },
        _ => {},
    }
}

/// An argument list starts with the positional values in their order and ends
/// with one keyword bag exactly if a keyword argument was given. The bag lists
/// each name where it was first given, with the value given for it last.
pub proof fn argument_list_shape(items: Seq<ArgView>)
    ensures
        positional_values(items).is_prefix_of(argument_list(items)),
        keyword_pairs(items).len() == 0 ==> argument_list(items) == positional_values(items),
        keyword_pairs(items).len() > 0 ==> argument_list(items) == positional_values(items).push(
            ValueView::Kwargs(keyword_bag(items)),
        ),
        keyword_pairs(items).len() > 0 <==> exists|i: int|
            0 <= i < items.len() && (#[trigger] items[i]) is Keyword,
        entry_keys(keyword_bag(items)) == distinct(entry_keys(keyword_pairs(items))),
        forall|name: Seq<char>|
            #[trigger] entries_get(keyword_bag(items), name) == last_value(
                keyword_pairs(items),
                name,
            ),
{
    let pairs = keyword_pairs(items);
    insertions_keep_first_order_and_last_value(pairs);
    lemma_keyword_pairs_present(items);
    if pairs.len() > 0 {
        lemma_insert_nonempty(
            entries_insert_all(Seq::empty(), pairs.drop_last()),
            pairs.last().0,
            pairs.last().1,
        );
    }
    assert(positional_values(items).is_prefix_of(argument_list(items)));
}

/// One more item at the end of the input adds its value at the end of its own
/// kind and leaves the other kind alone.
pub proof fn each_item_joins_its_kind(items: Seq<ArgView>, item: ArgView)
    ensures
        match item {
            ArgView::Positional(value) => {
                &&& positional_values(items.push(item)) == positional_values(items).push(value)
                &&& keyword_pairs(items.push(item)) == keyword_pairs(items)
            },
            ArgView::Keyword(name, value) => {
                &&& positional_values(items.push(item)) == positional_values(items)
                &&& keyword_pairs(items.push(item)) == keyword_pairs(items).push((name, value))
            },
        },
{
    assert(items.push(item).drop_last() =~= items);
    match item {
        ArgView::Positional(value) => {
            assert(positional_values(items) + seq![value] =~= positional_values(items).push(
                value,
            ));
        },
        ArgView::Keyword(name, value) => {
            assert(keyword_pairs(items) + seq![(name, value)] =~= keyword_pairs(items).push(
                (name, value),
            ));
        },
    }
}

/// Only the positional values and the keyword arguments count, each kind in
/// its own order: how the two kinds are interleaved changes nothing.
pub proof fn interleaving_does_not_matter(first: Seq<ArgView>, second: Seq<ArgView>)
    requires
        positional_values(first) == positional_values(second),
        keyword_pairs(first) == keyword_pairs(second),
    ensures
        argument_list(first) == argument_list(second),
{
}

proof fn lemma_keyword_pairs_present(items: Seq<ArgView>)
    ensures
        keyword_pairs(items).len() > 0 <==> exists|i: int|
            0 <= i < items.len() && (#[trigger] items[i]) is Keyword,
    decreases items.len(),
{
    if items.len() > 0 {
        let front = items.drop_last();
        lemma_keyword_pairs_present(front);
        if keyword_pairs(front).len() > 0 {
            let i = choose|i: int| 0 <= i < front.len() && (#[trigger] front[i]) is Keyword;
            assert(items[i] is Keyword);
        }
        if exists|i: int| 0 <= i < items.len() && (#[trigger] items[i]) is Keyword {
            let i = choose|i: int| 0 <= i < items.len() && (#[trigger] items[i]) is Keyword;
            if i < front.len() {
                assert(front[i] is Keyword);
            } else {
                assert(items.last() is Keyword);
            }
        }
    }
}

} // verus!

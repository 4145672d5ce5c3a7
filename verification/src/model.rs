//! The mathematical model that the contracts of this crate are stated over:
//! values as a spec datatype, ordered entry sequences, and the lookup and key
//! enumeration of mapping-like values.

use vstd::prelude::*;
use vstd::seq_lib::{lemma_seq_concat_contains_all_elements, lemma_seq_contains_after_push};

verus! {

/// What a dynamic value is, independent of how it is stored or shared.
pub enum ValueView {
    /// The absence of a value.
    Undefined,
    /// The explicit "none" value.
    Null,
    Bool(bool),
    Int(int),
    /// A double-precision number, identified by its IEEE 754 bit pattern.
    Real(u64),
    Str(Seq<char>),
    Bytes(Seq<u8>),
    List(Seq<ValueView>),
    /// An ordered mapping from string keys to values.
    Dict(Seq<(Seq<char>, ValueView)>),
    /// A lazy overlay of sources, earlier sources taking precedence.
    Merge(Seq<ValueView>),
    /// The keyword bag that ends an argument list.
    Kwargs(Seq<(Seq<char>, ValueView)>),
    /// A function known to the evaluator under this handle.
    Callable(u64),
}

/// The keys of an entry sequence, in entry order.
pub open spec fn entry_keys(entries: Seq<(Seq<char>, ValueView)>) -> Seq<Seq<char>> {
    Seq::new(entries.len(), |i: int| entries[i].0)
}

/// The value stored under `key`, if any entry has that key.
pub open spec fn entries_get(entries: Seq<(Seq<char>, ValueView)>, key: Seq<char>) -> Option<
    ValueView,
> {
    match entry_keys(entries).index_of_first(key) {
        Some(i) => Some(entries[i].1),
        None => None,
    }
}

/// Inserting into an ordered map: an existing key keeps its position and takes
/// the new value, a new key goes to the end.
pub open spec fn entries_insert(
    entries: Seq<(Seq<char>, ValueView)>,
    key: Seq<char>,
    value: ValueView,
) -> Seq<(Seq<char>, ValueView)> {
    match entry_keys(entries).index_of_first(key) {
        Some(i) => entries.update(i, (key, value)),
        None => entries.push((key, value)),
    }
}

/// The ordered map that results from inserting `pairs` one after another into `entries`.
pub open spec fn entries_insert_all(
    entries: Seq<(Seq<char>, ValueView)>,
    pairs: Seq<(Seq<char>, ValueView)>,
) -> Seq<(Seq<char>, ValueView)>
    decreases pairs.len(),
{
    if pairs.len() == 0 {
        entries
    } else {
        let before = entries_insert_all(entries, pairs.drop_last());
        entries_insert(before, pairs.last().0, pairs.last().1)
    }
}

/// `s` without repetitions: each element is kept where it first occurs.
pub open spec fn distinct<A>(s: Seq<A>) -> Seq<A>
    decreases s.len(),
{
    if s.len() == 0 {
        Seq::empty()
    } else {
        let front = distinct(s.drop_last());
        if front.contains(s.last()) {
            front
        } else {
            front.push(s.last())
        }
    }
}

/// `x` occurs in `s` at index `i` and nowhere before it.
pub open spec fn first_at<A>(s: Seq<A>, x: A, i: int) -> bool {
    &&& 0 <= i < s.len()
    &&& s[i] == x
    &&& forall|j: int| 0 <= j < i ==> s[j] != x
}

/// What looking `key` up in `v` gives: `None` when `v` has no such key.
/// An entry that is present counts as found whatever its value, an undefined
/// one included. Values that are not mapping-like have no keys at all.
pub open spec fn lookup(v: ValueView, key: Seq<char>) -> Option<ValueView>
    decreases v,
{
    match v {
        ValueView::Dict(entries) => entries_get(entries, key),
        ValueView::Kwargs(entries) => entries_get(entries, key),
        ValueView::Merge(sources) => lookup_first(sources, key),
        _ => None,
    }
}

/// The lookup result of the first of `sources` that has `key`.
pub open spec fn lookup_first(sources: Seq<ValueView>, key: Seq<char>) -> Option<ValueView>
    decreases sources,
{
    if sources.len() == 0 {
        None
    } else {
        match lookup(sources.first(), key) {
            Some(found) => Some(found),
            None => lookup_first(sources.drop_first(), key),
        }
    }
}

/// Source `i` is the first of `sources` that has `key`.
pub open spec fn first_hit(sources: Seq<ValueView>, key: Seq<char>, i: int) -> bool {
    &&& 0 <= i < sources.len()
    &&& lookup(sources[i], key) is Some
    &&& forall|j: int| 0 <= j < i ==> (#[trigger] lookup(sources[j], key)) is None
}

/// The value of the last of `pairs` that has `key`.
pub open spec fn last_value(pairs: Seq<(Seq<char>, ValueView)>, key: Seq<char>) -> Option<
    ValueView,
>
    decreases pairs.len(),
{
    if pairs.len() == 0 {
        None
    } else if pairs.last().0 == key {
        Some(pairs.last().1)
    } else {
        last_value(pairs.drop_last(), key)
    }
}

/// The keys that `v` enumerates, in enumeration order.
pub open spec fn keys_of(v: ValueView) -> Seq<Seq<char>>
    decreases v,
{
    match v {
        ValueView::Dict(entries) => entry_keys(entries),
        ValueView::Kwargs(entries) => entry_keys(entries),
        ValueView::Merge(sources) => distinct(all_keys(sources)),
        _ => Seq::empty(),
    }
}

/// The key enumerations of `sources`, one after another.
pub open spec fn all_keys(sources: Seq<ValueView>) -> Seq<Seq<char>>
    decreases sources,
{
    if sources.len() == 0 {
        Seq::empty()
    } else {
        all_keys(sources.drop_last()) + keys_of(sources.last())
    }
}

/// An index that is the first occurrence is what `index_of_first` names.
pub proof fn lemma_first_index_is<A>(s: Seq<A>, x: A, i: int)
    requires
        first_at(s, x, i),
    ensures
        s.index_of_first(x) == Some(i),
{
    s.index_of_first_ensures(x);
    assert(s.contains(x));
}

/// Where no element equals `x`, `index_of_first` finds nothing.
pub proof fn lemma_first_index_none<A>(s: Seq<A>, x: A)
    requires
        forall|j: int| 0 <= j < s.len() ==> s[j] != x,
    ensures
        s.index_of_first(x) is None,
{
    s.index_of_first_ensures(x);
}

/// Inserting keeps the keys free of repetitions: an existing key leaves the
/// key sequence as it is, a new key is appended to it.
pub proof fn lemma_insert_keys(
    entries: Seq<(Seq<char>, ValueView)>,
    key: Seq<char>,
    value: ValueView,
)
    requires
        entry_keys(entries).no_duplicates(),
    ensures
        entry_keys(entries_insert(entries, key, value)).no_duplicates(),
        entry_keys(entries).contains(key) ==> entry_keys(entries_insert(entries, key, value))
            == entry_keys(entries),
        !entry_keys(entries).contains(key) ==> entry_keys(entries_insert(entries, key, value))
            == entry_keys(entries).push(key),
{
    let keys = entry_keys(entries);
    keys.index_of_first_ensures(key);
    let after = entries_insert(entries, key, value);
    match keys.index_of_first(key) {
        Some(i) => {
            assert(entry_keys(after) =~= keys);
        },
        None => {
            assert(entry_keys(after) =~= keys.push(key));
        },
    }
}

/// Inserting one more pair after a run of insertions.
pub proof fn lemma_insert_all_step(
    entries: Seq<(Seq<char>, ValueView)>,
    pairs: Seq<(Seq<char>, ValueView)>,
    pair: (Seq<char>, ValueView),
)
    ensures
        entries_insert_all(entries, pairs.push(pair)) == entries_insert(
            entries_insert_all(entries, pairs),
            pair.0,
            pair.1,
        ),
{
    assert(pairs.push(pair).drop_last() =~= pairs);
}

/// An ordered map is never empty after an insertion, and never shorter.
pub proof fn lemma_insert_nonempty(
    entries: Seq<(Seq<char>, ValueView)>,
    key: Seq<char>,
    value: ValueView,
)
    ensures
        entries_insert(entries, key, value).len() >= 1,
        entries_insert(entries, key, value).len() >= entries.len(),
{
    entry_keys(entries).index_of_first_ensures(key);
}

/// How `distinct` treats one more element at the end.
pub proof fn lemma_distinct_push<A>(s: Seq<A>, x: A)
    ensures
        distinct(s.push(x)) == if distinct(s).contains(x) {
            distinct(s)
        } else {
            distinct(s).push(x)
        },
{
    assert(s.push(x).drop_last() =~= s);
}

/// `distinct(s)` has exactly the elements of `s`, each of them once.
pub proof fn lemma_distinct_elements<A>(s: Seq<A>)
    ensures
        distinct(s).no_duplicates(),
        distinct(s).len() <= s.len(),
        forall|x: A| distinct(s).contains(x) <==> s.contains(x),
    decreases s.len(),
{
    if s.len() > 0 {
        let front = s.drop_last();
        let kept = distinct(front);
        lemma_distinct_elements(front);
        assert(s =~= front.push(s.last()));
        assert forall|x: A| distinct(s).contains(x) <==> s.contains(x) by {
            lemma_seq_contains_after_push(front, s.last(), x);
            lemma_seq_contains_after_push(kept, s.last(), x);
        }
        if !kept.contains(s.last()) {
            assert forall|i: int, j: int|
                0 <= i < distinct(s).len() && 0 <= j < distinct(s).len() && i != j implies distinct(
                s,
            )[i] != distinct(s)[j] by {
                if i < kept.len() {
                    assert(kept[i] == distinct(s)[i]);
                }
                if j < kept.len() {
                    assert(kept[j] == distinct(s)[j]);
                }
            }
        }
    }
}

/// The key enumerations of a longer prefix of the sources.
pub proof fn lemma_all_keys_step(sources: Seq<ValueView>, i: int)
    requires
        0 <= i < sources.len(),
    ensures
        all_keys(sources.take(i + 1)) == all_keys(sources.take(i)) + keys_of(sources[i]),
{
    assert(sources.take(i + 1).drop_last() =~= sources.take(i));
}

/// What a lookup gives after an insertion: the new value under the inserted
/// key, and under every other key what it gave before.
pub proof fn lemma_get_after_insert(
    entries: Seq<(Seq<char>, ValueView)>,
    key: Seq<char>,
    value: ValueView,
    other: Seq<char>,
)
    ensures
        entries_get(entries_insert(entries, key, value), other) == if other == key {
            Some(value)
        } else {
            entries_get(entries, other)
        },
{
    let keys = entry_keys(entries);
    let after = entries_insert(entries, key, value);
    let keys_after = entry_keys(after);
    keys.index_of_first_ensures(key);
    keys.index_of_first_ensures(other);
    match keys.index_of_first(key) {
        Some(i) => {
            assert(keys_after =~= keys);
        },
        None => {
            assert(keys_after =~= keys.push(key));
            if other == key {
                assert(first_at(keys_after, other, keys.len() as int));
                lemma_first_index_is(keys_after, other, keys.len() as int);
            } else {
                match keys.index_of_first(other) {
                    Some(j) => {
                        assert(first_at(keys_after, other, j));
                        lemma_first_index_is(keys_after, other, j);
                    },
                    None => {
                        lemma_first_index_none(keys_after, other);
                    },
                }
            }
        },
    }
}

/// An element of a sequence has a first occurrence.
pub proof fn lemma_first_occurrence<A>(s: Seq<A>, x: A) -> (i: int)
    requires
        s.contains(x),
    ensures
        first_at(s, x, i),
{
    s.index_of_first_ensures(x);
    s.index_of_first(x).unwrap()
}

/// `distinct(s)` lists the elements of `s` in the order of their first
/// occurrences.
pub proof fn lemma_distinct_order<A>(s: Seq<A>, a: int, b: int)
    requires
        0 <= a < b < distinct(s).len(),
    ensures
        exists|p: int, q: int|
            p < q && #[trigger] first_at(s, distinct(s)[a], p) && #[trigger] first_at(
                s,
                distinct(s)[b],
                q,
            ),
    decreases s.len(),
{
    if s.len() > 0 {
        let front = s.drop_last();
        let kept = distinct(front);
        lemma_distinct_elements(front);
        assert(s =~= front.push(s.last()));
        if b < kept.len() {
            lemma_distinct_order(front, a, b);
            let (p, q) = choose|p: int, q: int|
                p < q && #[trigger] first_at(front, kept[a], p) && #[trigger] first_at(
                    front,
                    kept[b],
                    q,
                );
            assert(first_at(s, distinct(s)[a], p));
            assert(first_at(s, distinct(s)[b], q));
        } else {
            assert(!kept.contains(s.last()));
            assert(distinct(s)[b] == s.last());
            assert(kept.contains(kept[a]));
            let p = lemma_first_occurrence(front, kept[a]);
            let q = s.len() - 1;
            assert(first_at(s, distinct(s)[a], p));
            assert forall|j: int| 0 <= j < q implies s[j] != s.last() by {
                if s[j] == s.last() {
                    assert(front[j] == s.last());
                    assert(front.contains(s.last()));
                }
            }
            assert(first_at(s, distinct(s)[b], q));
        }
    }
}

/// A sequence without repetitions is its own `distinct`.
pub proof fn lemma_distinct_of_distinct<A>(s: Seq<A>)
    requires
        s.no_duplicates(),
    ensures
        distinct(s) == s,
    decreases s.len(),
{
    if s.len() > 0 {
        let front = s.drop_last();
        lemma_distinct_of_distinct(front);
        lemma_distinct_elements(front);
        assert(s =~= front.push(s.last()));
        if front.contains(s.last()) {
            let i = choose|i: int| 0 <= i < front.len() && front[i] == s.last();
            assert(s[i] == s[s.len() - 1]);
        }
    } else {
        assert(s =~= Seq::empty());
    }
}

/// A key is among the concatenated enumerations exactly if some source
/// enumerates it.
pub proof fn lemma_all_keys_contains(sources: Seq<ValueView>, key: Seq<char>)
    ensures
        all_keys(sources).contains(key) <==> exists|i: int|
            0 <= i < sources.len() && (#[trigger] keys_of(sources[i])).contains(key),
    decreases sources.len(),
{
    if sources.len() > 0 {
        let front = sources.drop_last();
        lemma_all_keys_contains(front, key);
        lemma_seq_concat_contains_all_elements(all_keys(front), keys_of(sources.last()), key);
        if all_keys(front).contains(key) {
            let i = choose|i: int|
                0 <= i < front.len() && (#[trigger] keys_of(front[i])).contains(key);
            assert(keys_of(sources[i]).contains(key));
        }
        if exists|i: int| 0 <= i < sources.len() && (#[trigger] keys_of(sources[i])).contains(key) {
            let i = choose|i: int|
                0 <= i < sources.len() && (#[trigger] keys_of(sources[i])).contains(key);
            if i < front.len() {
                assert(keys_of(front[i]).contains(key));
            }
        }
    }
}

/// What scanning the sources for a key gives: the result of the first source
/// that has the key, and nothing only if no source has it.
pub proof fn lemma_lookup_first(sources: Seq<ValueView>, key: Seq<char>)
    ensures
        match lookup_first(sources, key) {
            Some(found) => exists|i: int|
                #[trigger] first_hit(sources, key, i) && lookup(sources[i], key) == Some(found),
            None => forall|i: int|
                0 <= i < sources.len() ==> (#[trigger] lookup(sources[i], key)) is None,
        },
    decreases sources.len(),
{
    if sources.len() > 0 {
        let rest = sources.drop_first();
        match lookup(sources.first(), key) {
            Some(found) => {
                assert(first_hit(sources, key, 0));
            },
            None => {
                lemma_lookup_first(rest, key);
                match lookup_first(rest, key) {
                    Some(found) => {
                        let i = choose|i: int|
                            #[trigger] first_hit(rest, key, i) && lookup(rest[i], key) == Some(
                                found,
                            );
                        assert forall|j: int| 0 <= j < i + 1 implies (#[trigger] lookup(
                            sources[j],
                            key,
                        )) is None by {
                            if j > 0 {
                                assert(rest[j - 1] == sources[j]);
                            }
                        }
                        assert(rest[i] == sources[i + 1]);
                        assert(first_hit(sources, key, i + 1));
                    },
                    None => {
                        assert forall|i: int| 0 <= i < sources.len() implies (#[trigger] lookup(
                            sources[i],
                            key,
                        )) is None by {
                            if i > 0 {
                                assert(rest[i - 1] == sources[i]);
                            }
                        }
                    },
                }
            },
        }
    }
}

} // verus!

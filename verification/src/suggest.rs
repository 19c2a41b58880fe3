//! Stateless queries over entries: which names a completion query selects,
//! which entry a look-up finds, and the longest prefix that names share.

use crate::entry::{EntryView, OnionLink};
use crate::text::{
    contains, holds, is_shared_prefix, is_sorted, is_substring, lex_le, lowercase, same_text,
    shared_prefix, sort_strings, to_lowercase,
};
use vstd::prelude::*;

verus! {

/// The lower-case forms of `items`, in the same order.
pub open spec fn lowercase_all(items: Seq<Seq<char>>) -> Seq<Seq<char>> {
    items.map_values(|s: Seq<char>| lowercase(s))
}

/// A query selects a name that contains it, or a tag list that holds it;
/// all three are taken as already lower-cased.
pub open spec fn selects(name: Seq<char>, tags: Option<Seq<Seq<char>>>, query: Seq<char>) -> bool {
    ||| is_substring(query, name)
    ||| tags matches Some(tags) && tags.contains(query)
}

/// A lower-cased query matches an entry when the entry's name contains it
/// or one of the entry's tags equals it, case aside.
pub open spec fn matches_entry(entry: EntryView, query: Seq<char>) -> bool {
    selects(
        lowercase(entry.name),
        match entry.tags {
            Some(tags) => Some(lowercase_all(tags)),
            None => None,
        },
        query,
    )
}

/// A look-up finds a name that equals its key, or a tag list that holds
/// the query as written; name and key are taken as already lower-cased.
pub open spec fn answers(
    name: Seq<char>,
    tags: Option<Seq<Seq<char>>>,
    key: Seq<char>,
    query: Seq<char>,
) -> bool {
    ||| name == key
    ||| tags matches Some(tags) && tags.contains(query)
}

/// A query finds an entry whose name equals it, case aside, or that
/// carries it as a tag.
pub open spec fn finds(entry: EntryView, query: Seq<char>) -> bool {
    answers(lowercase(entry.name), entry.tags, lowercase(query), query)
}

/// The lower-cased names of the entries that a lower-cased query matches, in
/// the order of the entries.
pub open spec fn matching_names(entries: Seq<EntryView>, query: Seq<char>) -> Seq<Seq<char>> {
    entries.filter(|e: EntryView| matches_entry(e, query)).map_values(
        |e: EntryView| lowercase(e.name),
    )
}

/// A name is among the matching names exactly when it is the lower-cased
/// name of an entry that the query matches.
pub proof fn lemma_matching_names_exact(
    entries: Seq<EntryView>,
    query: Seq<char>,
    name: Seq<char>,
)
    ensures
        matching_names(entries, query).contains(name) <==> exists|i: int|
            0 <= i < entries.len() && matches_entry(#[trigger] entries[i], query) && lowercase(
                entries[i].name,
            ) == name,
{
    let pred = |e: EntryView| matches_entry(e, query);
    let kept = entries.filter(pred);
    let names = matching_names(entries, query);
    if names.contains(name) {
        // What was kept at the place of `name` is an entry that matches.
        let j = choose|j: int| 0 <= j < names.len() && names[j] == name;
        entries.lemma_filter_contains_rev(pred, kept[j]);
        entries.lemma_filter_pred(pred, j);
        let i = choose|i: int| 0 <= i < entries.len() && entries[i] == kept[j];
        assert(matches_entry(entries[i], query) && lowercase(entries[i].name) == name);
    }
    if exists|i: int|
        0 <= i < entries.len() && matches_entry(#[trigger] entries[i], query) && lowercase(
            entries[i].name,
        ) == name {
        let i = choose|i: int|
            0 <= i < entries.len() && matches_entry(#[trigger] entries[i], query) && lowercase(
                entries[i].name,
            ) == name;
        // A matching entry is kept, and its name stands at the same place.
        entries.lemma_filter_contains(pred, i);
        let j = choose|j: int| 0 <= j < kept.len() && kept[j] == entries[i];
        assert(names[j] == name);
    }
}

/// Whether a query selects an entry, given the entry's lower-cased name and
/// tags and the lower-cased query.
pub fn is_selected(name: &str, tags: &Option<Vec<String>>, query: &str) -> (yes: bool)
    ensures
        yes == selects(
            name@,
            match tags {
                Some(tags) => Some(tags.deep_view()),
                None => None,
            },
            query@,
        ),
{
    if contains(name, query) {
        return true;
    }
    match tags {
        Some(tags) => holds(tags, query),
        None => false,
    }
}

/// Whether a look-up finds an entry, given the entry's lower-cased name,
/// its tags, the lower-cased query and the query as written.
pub fn is_answer(name: &str, tags: &Option<Vec<String>>, key: &str, query: &str) -> (yes: bool)
    ensures
        yes == answers(
            name@,
            match tags {
                Some(tags) => Some(tags.deep_view()),
                None => None,
            },
            key@,
            query@,
        ),
{
    if same_text(name, key) {
        return true;
    }
    match tags {
        Some(tags) => holds(tags, query),
        None => false,
    }
}

/// Lower-cases every string of `items`.
pub fn to_lowercase_all(items: &Vec<String>) -> (folded: Vec<String>)
    ensures
        folded.deep_view() == lowercase_all(items.deep_view()),
{
    let mut folded: Vec<String> = Vec::new();
    let mut i: usize = 0;
    while i < items.len()
        invariant
            i <= items.len(),
            folded.len() == i,
            forall|j: int| 0 <= j < i ==> folded[j]@ == lowercase(items[j]@),
        decreases items.len() - i,
    {
        folded.push(to_lowercase(items[i].as_str()));
        i += 1;
    }
    folded
}

/// The names that `query` selects among `entries`: each entry whose name
/// contains the query, or that carries the query as a tag, contributes its
/// lower-cased name. `query` is taken as already lower-cased.
pub fn select_names(entries: &Vec<OnionLink>, query: &str) -> (names: Vec<String>)
    ensures
        names.deep_view() == matching_names(entries.deep_view(), query@),
{
    let ghost pred = |e: EntryView| matches_entry(e, query@);
    let ghost all = entries.deep_view();
    let mut names: Vec<String> = Vec::new();
    let mut i: usize = 0;
    while i < entries.len()
        invariant
            i <= entries.len(),
            all == entries.deep_view(),
            pred == |e: EntryView| matches_entry(e, query@),
            names.deep_view() == matching_names(all.take(i as int), query@),
        decreases entries.len() - i,
    {
        let entry = &entries[i];
        let name = to_lowercase(entry.name.as_str());
        let tags = match &entry.tags {
            Some(tags) => Some(to_lowercase_all(tags)),
            None => None,
        };
        let ghost before = names.deep_view();
        let chosen = is_selected(name.as_str(), &tags, query);
        proof {
            let seen = all.take(i as int);
            assert(all.take(i + 1) == seen.push(entry@));
            seen.lemma_filter_push(entry@, pred);
        }
        if chosen {
            names.push(name);
            assert(names.deep_view() == before.push(lowercase(entry@.name)));
        }
        i += 1;
    }
    assert(all.take(i as int) == all);
    names
}

/// Every name in `names` starts with `p`.
pub open spec fn is_common_prefix(p: Seq<char>, names: Seq<Seq<char>>) -> bool {
    forall|i: int| 0 <= i < names.len() ==> p.is_prefix_of(#[trigger] names[i])
}

/// `p` starts every name in `names`, and nothing longer does.
pub open spec fn is_longest_common_prefix(p: Seq<char>, names: Seq<Seq<char>>) -> bool {
    &&& is_common_prefix(p, names)
    &&& forall|q: Seq<char>| #[trigger] is_common_prefix(q, names) ==> q.len() <= p.len()
}

/// A string that lies between two strings in dictionary order starts with
/// whatever both of them start with.
pub proof fn lemma_prefix_between(p: Seq<char>, lo: Seq<char>, x: Seq<char>, hi: Seq<char>)
    requires
        lex_le(lo, x),
        lex_le(x, hi),
        p.is_prefix_of(lo),
        p.is_prefix_of(hi),
    ensures
        p.is_prefix_of(x),
{
    let n = p.len() as int;
    if !lo.is_prefix_of(x) {
        // `x` departs from `lo` at `k`, with the greater character.
        let k = choose|k: int|
            0 <= k < lo.len() && k < x.len() && #[trigger] lo.take(k) == x.take(k) && (lo[k] as u32)
                < (x[k] as u32);
        if k < n {
            // Before `k` all of `lo`, `x` and `hi` agree, and at `k` `hi`
            // holds what `lo` holds: `x` would come after `hi`.
            assert(hi[k] == hi.subrange(0, n)[k]);
            assert forall|m: int| 0 <= m < k implies x[m] == hi[m] by {
                assert(hi[m] == hi.subrange(0, n)[m]);
            }
        }
    }
}

/// In a sorted list, what the first and the last name share is the longest
/// prefix common to all of them.
pub proof fn lemma_sorted_ends_decide(p: Seq<char>, names: Seq<Seq<char>>)
    requires
        names.len() > 0,
        is_sorted(names),
        is_shared_prefix(p, names.first(), names.last()),
    ensures
        is_longest_common_prefix(p, names),
{
    assert forall|i: int| 0 <= i < names.len() implies p.is_prefix_of(#[trigger] names[i]) by {
        lemma_prefix_between(p, names.first(), names[i], names.last());
    }
}

/// Being the longest common prefix depends only on which names occur, not
/// on their order or number.
pub proof fn lemma_common_prefix_of_same_names(
    p: Seq<char>,
    names: Seq<Seq<char>>,
    other: Seq<Seq<char>>,
)
    requires
        names.to_multiset() == other.to_multiset(),
        is_longest_common_prefix(p, names),
    ensures
        is_longest_common_prefix(p, other),
{
    names.to_multiset_ensures();
    other.to_multiset_ensures();
    assert forall|q: Seq<char>| is_common_prefix(q, names) == is_common_prefix(q, other) by {
        if is_common_prefix(q, names) {
            assert forall|i: int| 0 <= i < other.len() implies q.is_prefix_of(
                #[trigger] other[i],
            ) by {
                assert(names.to_multiset().count(other[i]) > 0);
            }
        }
        if is_common_prefix(q, other) {
            assert forall|i: int| 0 <= i < names.len() implies q.is_prefix_of(
                #[trigger] names[i],
            ) by {
                assert(other.to_multiset().count(names[i]) > 0);
            }
        }
    }
}

/// A non-empty list of names has one longest common prefix.
pub proof fn lemma_longest_common_prefix_unique(
    p: Seq<char>,
    q: Seq<char>,
    names: Seq<Seq<char>>,
)
    requires
        names.len() > 0,
        is_longest_common_prefix(p, names),
        is_longest_common_prefix(q, names),
    ensures
        p == q,
{
    assert(p.is_prefix_of(names[0]) && q.is_prefix_of(names[0]));
}

/// The longest string that is a prefix of every name in `names`; the empty
/// string when there are no names.
pub fn longest_common_prefix(names: &Vec<String>) -> (p: String)
    ensures
        names@.len() == 0 ==> p@ == Seq::<char>::empty(),
        names@.len() > 0 ==> is_longest_common_prefix(p@, names.deep_view()),
{
    if names.len() == 0 {
        return String::new();
    }
    let mut sorted = names.clone();
    sort_strings(&mut sorted);
    proof {
        names.deep_view().to_multiset_ensures();
        sorted.deep_view().to_multiset_ensures();
    }
    let p = shared_prefix(sorted[0].as_str(), sorted[sorted.len() - 1].as_str());
    proof {
        let s = sorted.deep_view();
        lemma_sorted_ends_decide(p@, s);
        lemma_common_prefix_of_same_names(p@, s, names.deep_view());
    }
    p
}

} // verus!

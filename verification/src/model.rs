//! The store as mathematics: a sequence of entries with distinct names,
//! the operations on it, and what holds of them.

use crate::entry::EntryView;
use crate::suggest::{finds, matching_names};
use crate::text::lowercase;
use vstd::prelude::*;

verus! {

/// The mathematical value of a [`crate::storage::Storage`].
pub struct StorageView {
    /// The entries, oldest first.
    pub entries: Seq<EntryView>,
    /// Where the store is kept on disk.
    pub path: Seq<char>,
    /// The lower-cased query that `names` answers, if one is cached.
    pub query: Option<Seq<char>>,
    /// The cached names; empty when no query is cached.
    pub names: Seq<Seq<char>>,
}

impl StorageView {
    /// Names are unique, and the cached names answer the cached query.
    pub open spec fn well_formed(self) -> bool {
        &&& distinct_names(self.entries)
        &&& match self.query {
            Some(query) => self.names == matching_names(self.entries, query),
            None => self.names.len() == 0,
        }
    }
}

/// No two entries share a name, case aside.
pub open spec fn distinct_names(entries: Seq<EntryView>) -> bool {
    forall|i: int, j: int|
        #![trigger entries[i], entries[j]]
        0 <= i < j < entries.len() ==> lowercase(entries[i].name) != lowercase(entries[j].name)
}

/// The lower-cased names of `entries`, in order.
pub open spec fn folded_names(entries: Seq<EntryView>) -> Seq<Seq<char>> {
    entries.map_values(|e: EntryView| lowercase(e.name))
}

/// Some entry bears `name`, case aside.
pub open spec fn has_name(entries: Seq<EntryView>, name: Seq<char>) -> bool {
    exists|i: int|
        #![trigger entries[i]]
        0 <= i < entries.len() && lowercase(entries[i].name) == lowercase(name)
}

/// `i` is the place of the entry that bears `name`, case aside.
pub open spec fn is_place_of(entries: Seq<EntryView>, name: Seq<char>, i: int) -> bool {
    0 <= i < entries.len() && lowercase(entries[i].name) == lowercase(name)
}

/// `entries` with `entry` added at the end, unless its name is taken.
pub open spec fn inserted(entries: Seq<EntryView>, entry: EntryView) -> Seq<EntryView> {
    if has_name(entries, entry.name) {
        entries
    } else {
        entries.push(entry)
    }
}

/// What is left of `items` when each is added in turn to an empty list:
/// the first entry of every name.
pub open spec fn collected(items: Seq<EntryView>) -> Seq<EntryView> {
    items.fold_left(
        Seq::empty(),
        |kept: Seq<EntryView>, entry: EntryView| inserted(kept, entry),
    )
}

/// `i` is the place of the first entry that `query` finds.
pub open spec fn is_first_found(entries: Seq<EntryView>, query: Seq<char>, i: int) -> bool {
    &&& 0 <= i < entries.len()
    &&& finds(entries[i], query)
    &&& forall|j: int| 0 <= j < i ==> !finds(#[trigger] entries[j], query)
}

/// `current` with a new link and new tags, where an empty link or an empty
/// tag list stands for "keep what is there".
pub open spec fn revised(current: EntryView, link: Seq<char>, tags: Seq<Seq<char>>) -> EntryView {
    EntryView {
        name: current.name,
        link: if link.len() == 0 {
            current.link
        } else {
            link
        },
        tags: if tags.len() == 0 {
            current.tags
        } else {
            Some(tags)
        },
    }
}

/// Adding an entry to a list of distinct names leaves the names distinct.
pub proof fn lemma_insert_keeps_distinct(entries: Seq<EntryView>, entry: EntryView)
    requires
        distinct_names(entries),
    ensures
        distinct_names(inserted(entries, entry)),
        has_name(inserted(entries, entry), entry.name),
{
    let after = inserted(entries, entry);
    if !has_name(entries, entry.name) {
        assert forall|i: int, j: int| 0 <= i < j < after.len() implies lowercase(after[i].name)
            != lowercase(after[j].name) by {
            // Two old entries differ as before; the new one differs from
            // every old one because its name was not taken.
            assert(after[i] == entries[i]);
            if j < entries.len() {
                assert(after[j] == entries[j]);
            }
        }
        assert(after[entries.len() as int] == entry);
    }
}

/// Taking an entry out of a list of distinct names leaves the names
/// distinct, and frees the name of the entry taken.
pub proof fn lemma_remove_keeps_distinct(entries: Seq<EntryView>, i: int)
    requires
        distinct_names(entries),
        0 <= i < entries.len(),
    ensures
        distinct_names(entries.remove(i)),
        !has_name(entries.remove(i), entries[i].name),
{
    let rest = entries.remove(i);
    // What stands at `a` in `rest` stood at `origin(a)` in `entries`.
    let origin = |a: int| if a < i { a } else { a + 1 };
    assert forall|a: int, b: int| 0 <= a < b < rest.len() implies lowercase(rest[a].name)
        != lowercase(rest[b].name) by {
        assert(rest[a] == entries[origin(a)] && rest[b] == entries[origin(b)]);
    }
    assert forall|a: int| 0 <= a < rest.len() implies lowercase(#[trigger] rest[a].name)
        != lowercase(entries[i].name) by {
        assert(rest[a] == entries[origin(a)]);
    }
}

/// Among distinct names, a name has one place at most.
pub proof fn lemma_place_is_unique(entries: Seq<EntryView>, name: Seq<char>, i: int, j: int)
    requires
        distinct_names(entries),
        is_place_of(entries, name, i),
        is_place_of(entries, name, j),
    ensures
        i == j,
{
}

/// Uniqueness holds regardless of case: of two entries whose names differ
/// in case at most, the second addition changes nothing, and afterwards
/// exactly one entry bears that name.
pub proof fn lemma_case_variants_stored_once(
    entries: Seq<EntryView>,
    first: EntryView,
    second: EntryView,
)
    requires
        distinct_names(entries),
        lowercase(first.name) == lowercase(second.name),
    ensures
        inserted(inserted(entries, first), second) == inserted(entries, first),
        distinct_names(inserted(entries, first)),
        exists|i: int|
            {
                &&& #[trigger] is_place_of(inserted(entries, first), first.name, i)
                &&& forall|j: int|
                    #[trigger] is_place_of(inserted(entries, first), first.name, j) ==> j == i
            },
        entries.len() == 0 ==> inserted(inserted(entries, first), second) == seq![first],
{
    let one = inserted(entries, first);
    lemma_insert_keeps_distinct(entries, first);
    let i = choose|i: int|
        #![trigger one[i]]
        0 <= i < one.len() && lowercase(one[i].name) == lowercase(first.name);
    assert(is_place_of(one, first.name, i));
    assert forall|j: int| #[trigger] is_place_of(one, first.name, j) implies j == i by {
        lemma_place_is_unique(one, first.name, i, j);
    }
}

/// Removing an entry and adding one of the same name, case aside, puts the
/// new entry at the end and keeps the names distinct; nothing of the old
/// entry is carried over.
pub proof fn lemma_replace_by_remove_and_add(
    entries: Seq<EntryView>,
    i: int,
    replacement: EntryView,
)
    requires
        distinct_names(entries),
        0 <= i < entries.len(),
        lowercase(entries[i].name) == lowercase(replacement.name),
    ensures
        inserted(entries.remove(i), replacement) == entries.remove(i).push(replacement),
        distinct_names(entries.remove(i).push(replacement)),
        forall|j: int|
            #[trigger] is_place_of(entries.remove(i).push(replacement), replacement.name, j) ==> j
                == entries.len() - 1,
{
    let rest = entries.remove(i);
    let after = rest.push(replacement);
    lemma_remove_keeps_distinct(entries, i);
    lemma_insert_keeps_distinct(rest, replacement);
    assert forall|j: int| #[trigger] is_place_of(after, replacement.name, j) implies j
        == entries.len() - 1 by {
        lemma_place_is_unique(after, replacement.name, j, entries.len() - 1);
    }
}

/// Collecting keeps names distinct, whatever is collected.
pub proof fn lemma_collected_is_distinct(items: Seq<EntryView>)
    ensures
        distinct_names(collected(items)),
    decreases items.len(),
{
    if items.len() > 0 {
        lemma_collected_is_distinct(items.drop_last());
        lemma_insert_keeps_distinct(collected(items.drop_last()), items.last());
    }
}

/// A list of distinct names is collected whole and in order: a store
/// rebuilt from the entries of a store holds the same entries.
pub proof fn lemma_collected_keeps_distinct_list(items: Seq<EntryView>)
    requires
        distinct_names(items),
    ensures
        collected(items) == items,
    decreases items.len(),
{
    if items.len() > 0 {
        let front = items.drop_last();
        assert(distinct_names(front)) by {
            assert forall|i: int, j: int| 0 <= i < j < front.len() implies lowercase(
                front[i].name,
            ) != lowercase(front[j].name) by {
                assert(front[i] == items[i] && front[j] == items[j]);
            }
        }
        lemma_collected_keeps_distinct_list(front);
        assert(!has_name(front, items.last().name)) by {
            assert forall|a: int| 0 <= a < front.len() implies lowercase(
                #[trigger] front[a].name,
            ) != lowercase(items.last().name) by {
                assert(front[a] == items[a]);
                assert(items.last() == items[items.len() - 1]);
            }
        }
        assert(front.push(items.last()) == items);
    }
}

} // verus!

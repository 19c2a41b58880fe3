//! The store: a list of entries that is unique by name, case aside, with a
//! cached answer to the last completion query.

pub use crate::entry::OnionLink;

use crate::entry::EntryView;
use crate::error::{Error, ErrorView};
use crate::model::{
    collected, folded_names, has_name, inserted, is_first_found, is_place_of,
    lemma_remove_keeps_distinct, revised, StorageView,
};
use crate::suggest::{
    finds, is_answer, is_longest_common_prefix, longest_common_prefix, matching_names,
    select_names,
};
use crate::text::{contains, is_substring, lowercase, position_of, to_lowercase};
use vstd::prelude::*;

verus! {

/// The answer to one completion query.
#[derive(Debug)]
struct Filter {
    query: String,
    names: Vec<String>,
}

/// The entries of one storage file, with the state of the completion
/// filter.
#[derive(Debug)]
pub struct Storage {
    links: Vec<OnionLink>,
    path: String,
    filter: Option<Filter>,
}

impl View for Storage {
    type V = StorageView;

    closed spec fn view(&self) -> StorageView {
        StorageView {
            entries: self.links.deep_view(),
            path: self.path@,
            query: match self.filter {
                Some(filter) => Some(filter.query@),
                None => None,
            },
            names: match self.filter {
                Some(filter) => filter.names.deep_view(),
                None => Seq::empty(),
            },
        }
    }
}

impl Clone for Storage {
    fn clone(&self) -> (copy: Storage)
        ensures
            copy@ == self@,
    {
        proof {
            use_type_invariant(self);
        }
        let links = self.links.clone();
        let filter = match &self.filter {
            Some(filter) => Some(
                Filter { query: filter.query.clone(), names: filter.names.clone() },
            ),
            None => None,
        };
        Storage { links, path: self.path.clone(), filter }
    }
}

impl Default for Storage {
    /// An empty store with an empty path.
    fn default() -> (storage: Storage)
        ensures
            storage@.well_formed(),
            storage@.entries.len() == 0,
            storage@.path.len() == 0,
            storage@.query is None,
            storage@.names.len() == 0,
    {
        Storage { links: Vec::new(), path: String::new(), filter: None }
    }
}

impl Storage {
    /// Every store is well formed, at every step of every operation.
    #[verifier::type_invariant]
    spec fn inv(&self) -> bool {
        self@.well_formed()
    }

    /// A store kept at `path` that holds `entries`, without those whose
    /// name, case aside, an earlier one bears. No filter is cached.
    pub fn from_entries(path: &str, entries: Vec<OnionLink>) -> (storage: Storage)
        ensures
            storage@.well_formed(),
            storage@.entries == collected(entries.deep_view()),
            storage@.path == path@,
            storage@.query is None,
    {
        let ghost all = entries.deep_view();
        let mut storage = Storage { links: Vec::new(), path: path.to_owned(), filter: None };
        for entry in it: entries
            invariant
                it.seq().map_values(|e: OnionLink| e@) == all,
                storage@.entries == collected(all.take(it.index() as int)),
                storage@.path == path@,
                storage@.query is None,
        {
            proof {
                let seen = all.take(it.index() as int);
                assert(all.take(it.index() + 1) == seen.push(entry@));
                assert(seen.push(entry@).drop_last() == seen);
            }
            let _ = storage.add_entry(entry);
        }
        proof {
            use_type_invariant(&storage);
        }
        storage
    }

    /// The entries, oldest first.
    pub fn links(&self) -> (links: &Vec<OnionLink>)
        ensures
            links.deep_view() == self@.entries,
            self@.well_formed(),
    {
        proof {
            use_type_invariant(self);
        }
        &self.links
    }

    /// Where the store is kept on disk.
    pub fn path(&self) -> (path: &str)
        ensures
            path@ == self@.path,
    {
        self.path.as_str()
    }

    /// The cached names: the answer to the cached query, or nothing when
    /// no query is cached.
    pub fn names_list(&self) -> (names: Vec<String>)
        ensures
            names.deep_view() == self@.names,
    {
        match &self.filter {
            Some(filter) => filter.names.clone(),
            None => Vec::new(),
        }
    }

    /// Whether an entry bears `name`, case aside.
    pub fn has_name(&self, name: &str) -> (taken: bool)
        ensures
            taken == has_name(self@.entries, name@),
    {
        self.position(name).is_some()
    }

    /// Adds `entry` unless an entry of that name, case aside, is stored
    /// already. On success the cached filter is dropped.
    pub fn add_entry(&mut self, entry: OnionLink) -> (done: Result<(), Error>)
        ensures
            final(self)@.well_formed(),
            final(self)@.path == old(self)@.path,
            final(self)@.entries == inserted(old(self)@.entries, entry@),
            match done {
                Ok(()) => !has_name(old(self)@.entries, entry@.name) && final(self)@.query is None,
                Err(error) => {
                    &&& has_name(old(self)@.entries, entry@.name)
                    &&& error@ == ErrorView::DuplicateName(entry@.name)
                    &&& final(self)@ == old(self)@
                },
            },
    {
        proof {
            use_type_invariant(&*self);
        }
        match self.position(entry.name.as_str()) {
            Some(_) => Err(Error::DuplicateName(entry.name)),
            None => {
                // The list is changed outside the store and put back whole:
                // in between, the store is empty, which is well formed.
                self.filter = None;
                let mut links = Vec::new();
                std::mem::swap(&mut links, &mut self.links);
                links.push(entry);
                assert(links.deep_view() == old(self)@.entries.push(entry@));
                self.links = links;
                Ok(())
            },
        }
    }

    /// Takes out the entry that bears `name`, case aside, and hands it
    /// back; the other entries keep their order. Without such an entry the
    /// store stays as it is. A removal drops the cached filter.
    pub fn take_entry(&mut self, name: &str) -> (taken: Option<OnionLink>)
        ensures
            final(self)@.well_formed(),
            final(self)@.path == old(self)@.path,
            match taken {
                Some(entry) => exists|i: int|
                    {
                        &&& #[trigger] is_place_of(old(self)@.entries, name@, i)
                        &&& entry@ == old(self)@.entries[i]
                        &&& final(self)@.entries == old(self)@.entries.remove(i)
                        &&& final(self)@.query is None
                    },
                None => !has_name(old(self)@.entries, name@) && final(self)@ == old(self)@,
            },
    {
        proof {
            use_type_invariant(&*self);
        }
        match self.position(name) {
            Some(i) => {
                self.filter = None;
                let mut links = Vec::new();
                std::mem::swap(&mut links, &mut self.links);
                let entry = links.remove(i);
                proof {
                    lemma_remove_keeps_distinct(old(self)@.entries, i as int);
                    assert(links.deep_view() == old(self)@.entries.remove(i as int));
                }
                self.links = links;
                Some(entry)
            },
            None => None,
        }
    }

    /// Removes the entry that bears `name`, case aside, and says whether
    /// there was one.
    pub fn remove_entry(&mut self, name: &str) -> (removed: bool)
        ensures
            final(self)@.well_formed(),
            final(self)@.path == old(self)@.path,
            removed == has_name(old(self)@.entries, name@),
            removed ==> exists|i: int|
                {
                    &&& #[trigger] is_place_of(old(self)@.entries, name@, i)
                    &&& final(self)@.entries == old(self)@.entries.remove(i)
                    &&& final(self)@.query is None
                },
            !removed ==> final(self)@ == old(self)@,
    {
        self.take_entry(name).is_some()
    }

    /// Replaces the entry that bears `name`, case aside, by one of the
    /// same name with the given link and tags; an empty link or an empty
    /// tag list keeps what the entry had. The replacement goes to the end
    /// of the list, and the cached filter is dropped.
    pub fn update_entry(
        &mut self,
        name: &str,
        new_link: &str,
        new_tags: Vec<String>,
    ) -> (done: Result<(), Error>)
        ensures
            final(self)@.well_formed(),
            final(self)@.path == old(self)@.path,
            match done {
                Ok(()) => exists|i: int|
                    {
                        &&& #[trigger] is_place_of(old(self)@.entries, name@, i)
                        &&& final(self)@.entries == old(self)@.entries.remove(i).push(
                            revised(old(self)@.entries[i], new_link@, new_tags.deep_view()),
                        )
                        &&& final(self)@.query is None
                    },
                Err(error) => {
                    &&& !has_name(old(self)@.entries, name@)
                    &&& error@ == ErrorView::NotFound(name@)
                    &&& final(self)@ == old(self)@
                },
            },
    {
        proof {
            use_type_invariant(&*self);
        }
        match self.take_entry(name) {
            None => Err(Error::NotFound(name.to_owned())),
            Some(current) => {
                let ghost i = choose|i: int|
                    {
                        &&& #[trigger] is_place_of(old(self)@.entries, name@, i)
                        &&& current@ == old(self)@.entries[i]
                        &&& self@.entries == old(self)@.entries.remove(i)
                    };
                proof {
                    lemma_remove_keeps_distinct(old(self)@.entries, i);
                }
                let link = if new_link.is_empty() {
                    current.link
                } else {
                    new_link.to_owned()
                };
                let tags = if new_tags.len() == 0 {
                    current.tags
                } else {
                    Some(new_tags)
                };
                let entry = OnionLink { name: current.name, link, tags };
                self.add_entry(entry)
            },
        }
    }

    /// The first entry whose name equals `query`, case aside, or that
    /// carries `query` as a tag; `None` when there is none.
    pub fn search(&self, query: &str) -> (found: Option<&OnionLink>)
        ensures
            match found {
                Some(entry) => exists|i: int|
                    #[trigger] is_first_found(self@.entries, query@, i) && entry@
                        == self@.entries[i],
                None => forall|i: int|
                    0 <= i < self@.entries.len() ==> !finds(#[trigger] self@.entries[i], query@),
            },
    {
        let key = to_lowercase(query);
        let mut i: usize = 0;
        while i < self.links.len()
            invariant
                i <= self.links.len(),
                key@ == lowercase(query@),
                forall|j: int| 0 <= j < i ==> !finds(#[trigger] self@.entries[j], query@),
            decreases self.links.len() - i,
        {
            let entry = &self.links[i];
            let name = to_lowercase(entry.name.as_str());
            if is_answer(name.as_str(), &entry.tags, key.as_str(), query) {
                assert(is_first_found(self@.entries, query@, i as int));
                return Some(entry);
            }
            i += 1;
        }
        None
    }

    /// The entries whose name contains `pattern` exactly as written, in
    /// their stored order.
    pub fn search_entry(&self, pattern: &str) -> (found: Vec<&OnionLink>)
        ensures
            found@.map_values(|e: &OnionLink| e@) == self@.entries.filter(
                |e: EntryView| is_substring(pattern@, e.name),
            ),
    {
        let ghost pred = |e: EntryView| is_substring(pattern@, e.name);
        let ghost all = self@.entries;
        let mut found: Vec<&OnionLink> = Vec::new();
        let mut i: usize = 0;
        proof {
            all.take(0).lemma_filter_len(pred);
        }
        while i < self.links.len()
            invariant
                i <= self.links.len(),
                all == self@.entries,
                all == self.links.deep_view(),
                pred == |e: EntryView| is_substring(pattern@, e.name),
                found@.map_values(|e: &OnionLink| e@) == all.take(i as int).filter(pred),
            decreases self.links.len() - i,
        {
            let entry = &self.links[i];
            proof {
                let seen = all.take(i as int);
                assert(all.take(i + 1) == seen.push(entry@));
                seen.lemma_filter_push(entry@, pred);
            }
            if contains(entry.name.as_str(), pattern) {
                found.push(entry);
            }
            i += 1;
        }
        assert(all.take(i as int) == all);
        found
    }

    /// Answers the completion query `pattern`: afterwards the cached names
    /// are the lower-cased names of the entries that the lower-cased
    /// pattern matches. Nothing is computed when that query is the cached
    /// one.
    pub fn update_input(&mut self, pattern: &str)
        ensures
            final(self)@.well_formed(),
            final(self)@.entries == old(self)@.entries,
            final(self)@.path == old(self)@.path,
            final(self)@.query == Some(lowercase(pattern@)),
            final(self)@.names == matching_names(old(self)@.entries, lowercase(pattern@)),
            old(self)@.query == Some(lowercase(pattern@)) ==> final(self)@ == old(self)@,
    {
        proof {
            use_type_invariant(&*self);
        }
        let query = to_lowercase(pattern);
        let cached = match &self.filter {
            Some(filter) => filter.query == query,
            None => false,
        };
        if !cached {
            let names = select_names(&self.links, query.as_str());
            self.filter = Some(Filter { query, names });
        }
    }

    /// The longest string that starts every cached name; empty when no
    /// name is cached.
    pub fn longest_common_prefix(&self) -> (prefix: String)
        ensures
            self@.names.len() == 0 ==> prefix@ == Seq::<char>::empty(),
            self@.names.len() > 0 ==> is_longest_common_prefix(prefix@, self@.names),
    {
        match &self.filter {
            Some(filter) => longest_common_prefix(&filter.names),
            None => String::new(),
        }
    }

    /// Answers the completion query `input` and hands out the names it
    /// selects.
    pub fn get_suggestions(&mut self, input: &str) -> (names: Vec<String>)
        ensures
            final(self)@.well_formed(),
            final(self)@.entries == old(self)@.entries,
            final(self)@.path == old(self)@.path,
            final(self)@.query == Some(lowercase(input@)),
            final(self)@.names == names.deep_view(),
            names.deep_view() == matching_names(old(self)@.entries, lowercase(input@)),
    {
        self.update_input(input);
        self.names_list()
    }

    /// Answers the completion query `input` and proposes a replacement
    /// for it: the highlighted suggestion if there is one, else the longest
    /// common prefix of the selected names, if that is not empty.
    pub fn get_completion(
        &mut self,
        input: &str,
        highlighted: Option<String>,
    ) -> (replacement: Option<String>)
        ensures
            final(self)@.well_formed(),
            final(self)@.entries == old(self)@.entries,
            final(self)@.path == old(self)@.path,
            final(self)@.query == Some(lowercase(input@)),
            final(self)@.names == matching_names(old(self)@.entries, lowercase(input@)),
            highlighted is Some ==> replacement == highlighted,
            highlighted is None ==> match replacement {
                Some(prefix) => prefix@.len() > 0 && is_longest_common_prefix(
                    prefix@,
                    final(self)@.names,
                ),
                None => final(self)@.names.len() == 0 || is_longest_common_prefix(
                    Seq::empty(),
                    final(self)@.names,
                ),
            },
    {
        self.update_input(input);
        match highlighted {
            Some(suggestion) => Some(suggestion),
            None => {
                let prefix = self.longest_common_prefix();
                if prefix.as_str().is_empty() {
                    None
                } else {
                    Some(prefix)
                }
            },
        }
    }

    /// The lower-cased name of every entry, in order.
    fn keys(&self) -> (keys: Vec<String>)
        ensures
            keys.deep_view() == folded_names(self@.entries),
    {
        let mut keys: Vec<String> = Vec::new();
        let mut i: usize = 0;
        while i < self.links.len()
            invariant
                i <= self.links.len(),
                keys@.len() == i,
                forall|j: int| 0 <= j < i ==> keys[j]@ == lowercase(self@.entries[j].name),
            decreases self.links.len() - i,
        {
            keys.push(to_lowercase(self.links[i].name.as_str()));
            i += 1;
        }
        keys
    }

    /// Place of the entry that bears `name`, case aside.
    fn position(&self, name: &str) -> (found: Option<usize>)
        ensures
            match found {
                Some(i) => is_place_of(self@.entries, name@, i as int),
                None => !has_name(self@.entries, name@),
            },
    {
        let keys = self.keys();
        let key = to_lowercase(name);
        let found = position_of(&keys, key.as_str());
        proof {
            let names = folded_names(self@.entries);
            assert(names.len() == keys@.len());
            if found is None {
                assert forall|i: int| 0 <= i < self@.entries.len() implies lowercase(
                    #[trigger] self@.entries[i].name,
                ) != lowercase(name@) by {
                    assert(names.contains(names[i]));
                }
            }
        }
        found
    }
}

} // verus!

//! A single bookmark: a name, the link it stands for, and optional tags.

use crate::text::{lowercase, to_lowercase};
use crate::words::{split_words, words};
use vstd::prelude::*;

verus! {

/// The mathematical value of an [`OnionLink`].
pub struct EntryView {
    pub name: Seq<char>,
    pub link: Seq<char>,
    pub tags: Option<Seq<Seq<char>>>,
}

/// One name/link association, optionally tagged.
#[derive(Debug)]
pub struct OnionLink {
    pub name: String,
    pub link: String,
    pub tags: Option<Vec<String>>,
}

impl View for OnionLink {
    type V = EntryView;

    open spec fn view(&self) -> EntryView {
        EntryView {
            name: self.name@,
            link: self.link@,
            tags: match self.tags {
                Some(tags) => Some(tags.deep_view()),
                None => None,
            },
        }
    }
}

impl DeepView for OnionLink {
    type V = EntryView;

    open spec fn deep_view(&self) -> EntryView {
        self@
    }
}

impl PartialEq for OnionLink {
    /// Two entries are the same entry when they bear the same name.
    fn eq(&self, other: &Self) -> (equal: bool) {
        self.name == other.name
    }
}

impl vstd::std_specs::cmp::PartialEqSpecImpl for OnionLink {
    open spec fn obeys_eq_spec() -> bool {
        true
    }

    open spec fn eq_spec(&self, other: &Self) -> bool {
        self.name@ == other.name@
    }
}

impl Eq for OnionLink {

}

/// `Hash::hash` of `String` feeds the string to the hasher. Nothing is
/// claimed about the hasher's state afterwards.
pub assume_specification<H: std::hash::Hasher>[ <String as std::hash::Hash>::hash ](
    text: &String,
    state: &mut H,
);

impl std::hash::Hash for OnionLink {
    /// Hashes the name alone, in line with equality.
    fn hash<H: std::hash::Hasher>(&self, state: &mut H) {
        self.name.hash(state)
    }
}

impl Default for OnionLink {
    /// An entry with an empty name, an empty link and no tags.
    fn default() -> (entry: OnionLink)
        ensures
            entry@.name.len() == 0,
            entry@.link.len() == 0,
            entry.tags is None,
    {
        OnionLink { name: String::new(), link: String::new(), tags: None }
    }
}

impl Clone for OnionLink {
    fn clone(&self) -> (copy: OnionLink)
        ensures
            copy@ == self@,
    {
        let tags = match &self.tags {
            Some(tags) => {
                let copy = tags.clone();
                Some(copy)
            },
            None => None,
        };
        OnionLink { name: self.name.clone(), link: self.link.clone(), tags }
    }
}

impl OnionLink {
    /// Builds an entry from its parts, exactly as given.
    pub fn new(name: &str, link: &str, tags: Option<Vec<String>>) -> (entry: OnionLink)
        ensures
            entry@.name == name@,
            entry@.link == link@,
            entry.tags == tags,
    {
        OnionLink { name: name.to_owned(), link: link.to_owned(), tags }
    }

    /// Builds an entry from what a user typed: name and link are
    /// lower-cased, and the tags are the lower-cased words of `tags`.
    pub fn from_input(name: &str, link: &str, tags: &str) -> (entry: OnionLink)
        ensures
            entry@.name == lowercase(name@),
            entry@.link == lowercase(link@),
            entry@.tags == tags_of(tags@),
    {
        OnionLink { name: to_lowercase(name), link: to_lowercase(link), tags: parse_tags(tags) }
    }
}

/// The tags that `text` names: its words, lower-cased. `None` when it
/// names no tag.
pub open spec fn tags_of(text: Seq<char>) -> Option<Seq<Seq<char>>> {
    if words(lowercase(text)).len() == 0 {
        None
    } else {
        Some(words(lowercase(text)))
    }
}

/// The tags that a line of text names: its words, lower-cased. `None`
/// when the line names no tag.
pub fn parse_tags(text: &str) -> (tags: Option<Vec<String>>)
    ensures
        match tags {
            Some(tags) => tags_of(text@) == Some(tags.deep_view()),
            None => tags_of(text@) is None,
        },
{
    let tags = split_words(to_lowercase(text).as_str());
    if tags.len() == 0 {
        None
    } else {
        Some(tags)
    }
}

} // verus!

use std::collections::hash_map::DefaultHasher;
use std::hash::{Hash, Hasher};

use tors::error::Error;
use tors::storage::{OnionLink, Storage};

const DREAD: &str = "http://dreadytofatroptsdj6io7l3xptbet6onoyno2yv7jicoxknyazubrad.onion";

fn named(names: &[&str]) -> Storage {
    let mut storage = Storage::default();
    for name in names {
        storage.add_entry(OnionLink::new(name, DREAD, None)).unwrap();
    }
    storage
}

fn names_of(storage: &Storage) -> Vec<String> {
    storage.links().iter().map(|l| l.name.clone()).collect()
}

fn tags(items: &[&str]) -> Option<Vec<String>> {
    Some(items.iter().map(|t| t.to_string()).collect())
}

fn hash_of(entry: &OnionLink) -> u64 {
    let mut hasher = DefaultHasher::new();
    entry.hash(&mut hasher);
    hasher.finish()
}

#[test]
fn add_entries() {
    let mut storage = Storage::default();

    let e1 = OnionLink::new("Dread", "http://dreadytofatroptsdj6io7l3xptbet6onoyno2yv7jicoxknyazubrad.onion", None);
    let e2 = OnionLink::new("culo", "http://dreadytofatroptsdj6io7l3xptbet6onoyno2yv7jicoxknyazubrad.onion", None);
    let e3 = OnionLink::new("store", "http://dreadytofatroptsdj6io7l3xptbet6onoyno2yv7jicoxknyazubrad.onion", None);
    let e4 = OnionLink::new("bbc", "http://dreadytofatroptsdj6io7l3xptbet6onoyno2yv7jicoxknyazubrad.onion", None);
    let e5 = OnionLink::new("news", "http://dreadytofatroptsdj6io7l3xptbet6onoyno2yv7jicoxknyazubrad.onion", None);
    let _ = storage.add_entry(e1);
    let _ = storage.add_entry(e2);
    let _ = storage.add_entry(e3);
    let _ = storage.add_entry(e4);
    let _ = storage.add_entry(e5);

    println!("{:?}", storage);
}

#[test]
fn added_entries_are_kept_in_order() {
    let storage = named(&["Dread", "culo", "store", "bbc", "news"]);
    assert_eq!(names_of(&storage), vec!["Dread", "culo", "store", "bbc", "news"]);
    assert_eq!(storage.links()[0].link, DREAD);
    assert_eq!(storage.links()[0].tags, None);
}

#[test]
fn new_keeps_its_arguments_as_given() {
    let entry = OnionLink::new("DrEaD", "HTTP://x.onion", tags(&["Forum", "news"]));
    assert_eq!(entry.name, "DrEaD");
    assert_eq!(entry.link, "HTTP://x.onion");
    assert_eq!(entry.tags, tags(&["Forum", "news"]));
}

#[test]
fn entries_are_equal_by_name_alone() {
    let a = OnionLink::new("x", "l1", tags(&["a"]));
    let b = OnionLink::new("x", "l2", None);
    let c = OnionLink::new("X", "l1", tags(&["a"]));
    assert!(a == b);
    assert!(a != c);
    assert_eq!(hash_of(&a), hash_of(&b));
}

#[test]
fn clone_copies_every_field() {
    let a = OnionLink::new("x", "l1", tags(&["a", "b"]));
    let b = a.clone();
    assert_eq!(b.name, "x");
    assert_eq!(b.link, "l1");
    assert_eq!(b.tags, tags(&["a", "b"]));
}

#[test]
fn default_entry_is_blank() {
    let entry = OnionLink::default();
    assert_eq!(entry.name, "");
    assert_eq!(entry.link, "");
    assert_eq!(entry.tags, None);
}

#[test]
fn default_storage_is_empty() {
    let storage = Storage::default();
    assert!(storage.links().is_empty());
    assert_eq!(storage.path(), "");
    assert!(storage.names_list().is_empty());
}

#[test]
fn names_that_differ_in_case_are_stored_once() {
    let mut storage = Storage::default();
    assert_eq!(storage.add_entry(OnionLink::new("Dread", "l1", None)), Ok(()));
    assert_eq!(
        storage.add_entry(OnionLink::new("dREAD", "l2", None)),
        Err(Error::DuplicateName("dREAD".to_string()))
    );
    assert_eq!(names_of(&storage), vec!["Dread"]);
    assert_eq!(storage.links()[0].link, "l1");
}

#[test]
fn names_that_differ_in_case_are_stored_once_beyond_ascii() {
    let mut storage = Storage::default();
    assert_eq!(storage.add_entry(OnionLink::new("ÄRGER", "l1", None)), Ok(()));
    assert!(storage.add_entry(OnionLink::new("ärger", "l2", None)).is_err());
    assert_eq!(storage.links().len(), 1);
}

#[test]
fn duplicate_name_is_refused_and_changes_nothing() {
    let mut storage = Storage::from_entries("somewhere.json", vec![
        OnionLink::new("x", "l1", tags(&["a"])),
        OnionLink::new("y", "l2", None),
    ]);
    storage.update_input("x");
    let before = storage.clone();
    let result = storage.add_entry(OnionLink::new("x", "other", None));
    assert_eq!(result, Err(Error::DuplicateName("x".to_string())));
    assert_eq!(names_of(&storage), names_of(&before));
    assert_eq!(storage.links()[0].link, "l1");
    assert_eq!(storage.links()[0].tags, tags(&["a"]));
    assert_eq!(storage.path(), "somewhere.json");
    assert_eq!(storage.names_list(), vec!["x"]);
}

#[test]
fn error_messages() {
    assert_eq!(
        Error::DuplicateName("dread".to_string()).message(),
        "Link with name dread already present\n"
    );
    assert_eq!(Error::NotFound("dread".to_string()).message(), "Link with name dread not found\n");
}

#[test]
fn remove_then_add_replaces_the_entry() {
    let mut storage = Storage::default();
    storage.add_entry(OnionLink::new("x", "l1", tags(&["a"]))).unwrap();
    assert!(storage.remove_entry("x"));
    assert_eq!(storage.add_entry(OnionLink::new("x", "l2", None)), Ok(()));
    assert_eq!(storage.links().len(), 1);
    assert_eq!(storage.links()[0].name, "x");
    assert_eq!(storage.links()[0].link, "l2");
    assert_eq!(storage.links()[0].tags, None);
}

#[test]
fn take_entry_hands_back_what_was_stored() {
    let mut storage = named(&["a", "Bee", "c"]);
    let taken = storage.take_entry("bEE").unwrap();
    assert_eq!(taken.name, "Bee");
    assert_eq!(taken.link, DREAD);
    assert_eq!(names_of(&storage), vec!["a", "c"]);
}

#[test]
fn removing_an_absent_name_changes_nothing() {
    let mut storage = named(&["a", "b"]);
    assert!(storage.take_entry("z").is_none());
    assert!(!storage.remove_entry("z"));
    assert_eq!(names_of(&storage), vec!["a", "b"]);
}

#[test]
fn has_name_ignores_case() {
    let storage = named(&["Dread", "torch"]);
    assert!(storage.has_name("dread"));
    assert!(storage.has_name("DREAD"));
    assert!(storage.has_name("Torch"));
    assert!(!storage.has_name("drea"));
    assert!(!storage.has_name(""));
}

#[test]
fn search_finds_by_name_whatever_the_case() {
    let storage = named(&["Dread", "Torch", "Store"]);
    let found = storage.search("store").unwrap();
    assert_eq!(found.name, "Store");
    assert_eq!(found.link, DREAD);
    assert!(storage.search("nope").is_none());
    assert_eq!(storage.search("STORE").unwrap().name, "Store");
    assert!(storage.search("stor").is_none());
}

#[test]
fn search_finds_by_tag_as_written() {
    let mut storage = Storage::default();
    storage.add_entry(OnionLink::new("dread", "l1", tags(&["forum", "News"]))).unwrap();
    storage.add_entry(OnionLink::new("bbc", "l2", tags(&["news"]))).unwrap();
    assert_eq!(storage.search("forum").unwrap().name, "dread");
    assert_eq!(storage.search("news").unwrap().name, "bbc");
    assert_eq!(storage.search("News").unwrap().name, "dread");
    assert!(storage.search("foru").is_none());
}

#[test]
fn search_returns_the_first_of_several() {
    let mut storage = Storage::default();
    storage.add_entry(OnionLink::new("a", "l1", tags(&["b"]))).unwrap();
    storage.add_entry(OnionLink::new("b", "l2", None)).unwrap();
    assert_eq!(storage.search("b").unwrap().name, "a");
}

#[test]
fn search_entry_matches_parts_of_names_as_written() {
    let storage = named(&["Dread", "bread", "Torch"]);
    let found: Vec<&str> = storage.search_entry("read").iter().map(|l| l.name.as_str()).collect();
    assert_eq!(found, vec!["Dread", "bread"]);
    let found: Vec<&str> = storage.search_entry("d").iter().map(|l| l.name.as_str()).collect();
    assert_eq!(found, vec!["Dread", "bread"]);
    let found: Vec<&str> = storage.search_entry("D").iter().map(|l| l.name.as_str()).collect();
    assert_eq!(found, vec!["Dread"]);
    assert!(storage.search_entry("x").is_empty());
    assert_eq!(storage.search_entry("").len(), 3);
}

#[test]
fn update_keeps_what_is_left_empty() {
    let mut storage = Storage::default();
    storage.add_entry(OnionLink::new("a", "l0", None)).unwrap();
    storage.add_entry(OnionLink::new("Dread", "l1", tags(&["forum"]))).unwrap();
    storage.add_entry(OnionLink::new("c", "l3", None)).unwrap();

    assert_eq!(storage.update_entry("dread", "", vec![]), Ok(()));
    assert_eq!(names_of(&storage), vec!["a", "c", "Dread"]);
    assert_eq!(storage.links()[2].link, "l1");
    assert_eq!(storage.links()[2].tags, tags(&["forum"]));

    assert_eq!(storage.update_entry("dread", "l2", vec![]), Ok(()));
    assert_eq!(storage.links()[2].link, "l2");
    assert_eq!(storage.links()[2].tags, tags(&["forum"]));

    assert_eq!(storage.update_entry("DREAD", "", vec!["x".to_string(), "y".to_string()]), Ok(()));
    assert_eq!(storage.links()[2].name, "Dread");
    assert_eq!(storage.links()[2].link, "l2");
    assert_eq!(storage.links()[2].tags, tags(&["x", "y"]));
    assert_eq!(storage.links().len(), 3);
}

#[test]
fn update_of_an_absent_name_is_an_error() {
    let mut storage = named(&["a"]);
    assert_eq!(
        storage.update_entry("b", "l", vec![]),
        Err(Error::NotFound("b".to_string()))
    );
    assert_eq!(names_of(&storage), vec!["a"]);
}

#[test]
fn from_entries_keeps_the_first_of_each_name() {
    let storage = Storage::from_entries("p.json", vec![
        OnionLink::new("a", "l1", None),
        OnionLink::new("b", "l2", None),
        OnionLink::new("A", "l3", None),
        OnionLink::new("c", "l4", None),
        OnionLink::new("b", "l5", None),
    ]);
    assert_eq!(names_of(&storage), vec!["a", "b", "c"]);
    assert_eq!(storage.links()[0].link, "l1");
    assert_eq!(storage.links()[1].link, "l2");
    assert_eq!(storage.path(), "p.json");
    assert!(storage.names_list().is_empty());
}

#[test]
fn rebuilding_from_its_own_entries_gives_the_same_store() {
    let mut storage = Storage::default();
    storage.add_entry(OnionLink::new("Dread", "l1", tags(&["forum"]))).unwrap();
    storage.add_entry(OnionLink::new("torch", "l2", None)).unwrap();
    storage.add_entry(OnionLink::new("store", "l3", tags(&[]))).unwrap();
    let again = Storage::from_entries("p", storage.links().clone());
    assert_eq!(again.links().len(), 3);
    for (a, b) in storage.links().iter().zip(again.links().iter()) {
        assert_eq!(a.name, b.name);
        assert_eq!(a.link, b.link);
        assert_eq!(a.tags, b.tags);
    }
}

#[test]
fn clone_of_a_store_is_independent() {
    let mut storage = named(&["a", "b"]);
    storage.update_input("a");
    let mut copy = storage.clone();
    copy.add_entry(OnionLink::new("c", "l", None)).unwrap();
    assert_eq!(names_of(&storage), vec!["a", "b"]);
    assert_eq!(names_of(&copy), vec!["a", "b", "c"]);
    assert_eq!(storage.names_list(), vec!["a"]);
}

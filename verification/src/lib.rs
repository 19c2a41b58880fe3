//! A bookmark store: names that stand for links, with optional tags.
//!
//! [`storage::Storage`] holds the entries, unique by name whatever the
//! case, and answers completion queries over them. [`model`] states what
//! the store is and what holds of its operations; [`suggest`] holds the
//! queries themselves; [`text`] and [`words`] hold the string primitives
//! underneath.

pub mod entry;
pub mod error;
pub mod model;
pub mod storage;
pub mod suggest;
pub mod text;
pub mod words;

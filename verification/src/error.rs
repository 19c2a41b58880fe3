//! Failures that the store reports to its caller.

use vstd::prelude::*;
use vstd::string::StringExecFns;

verus! {

/// The mathematical value of an [`Error`].
pub enum ErrorView {
    DuplicateName(Seq<char>),
    NotFound(Seq<char>),
}

/// Why a store operation did not go through.
#[derive(Debug, PartialEq, Eq)]
pub enum Error {
    /// An entry with this name, case aside, is already stored.
    DuplicateName(String),
    /// No stored entry has this name.
    NotFound(String),
}

impl View for Error {
    type V = ErrorView;

    open spec fn view(&self) -> ErrorView {
        match self {
            Error::DuplicateName(name) => ErrorView::DuplicateName(name@),
            Error::NotFound(name) => ErrorView::NotFound(name@),
        }
    }
}

impl ErrorView {
    /// The text that describes the failure.
    pub open spec fn message(self) -> Seq<char> {
        match self {
            ErrorView::DuplicateName(name) => "Link with name "@ + name + " already present\n"@,
            ErrorView::NotFound(name) => "Link with name "@ + name + " not found\n"@,
        }
    }
}

impl Error {
    /// A line of text that describes the failure.
    pub fn message(&self) -> (text: String)
        ensures
            text@ == self@.message(),
    {
        match self {
            Error::DuplicateName(name) => "Link with name ".to_owned().concat(
                name.as_str(),
            ).concat(" already present\n"),
            Error::NotFound(name) => "Link with name ".to_owned().concat(name.as_str()).concat(
                " not found\n",
            ),
        }
    }
}

} // verus!

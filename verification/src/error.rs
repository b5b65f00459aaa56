//! The errors that parsing reports.

use vstd::prelude::*;

verus! {

/// Why a text was not accepted as an HTTP response. Each variant carries a
/// message for people, which ends with the text that gave offence.
#[derive(Debug, PartialEq, Eq)]
pub enum Error {
    /// What arrived from the network is no response at all: it has no line
    /// break, so that no status line can be told from the rest.
    Network(String),
    /// The text has a status line or a header line of the wrong shape.
    MalformedResponse(String),
}

/// The mathematical value of an [`Error`].
pub enum ErrorView {
    Network(Seq<char>),
    MalformedResponse(Seq<char>),
}

impl View for Error {
    type V = ErrorView;

    open spec fn view(&self) -> ErrorView {
        match self {
            Error::Network(message) => ErrorView::Network(message@),
            Error::MalformedResponse(message) => ErrorView::MalformedResponse(message@),
        }
    }
}

impl Clone for Error {
    fn clone(&self) -> (copy: Self)
        ensures
            copy == *self,
    {
        match self {
            Error::Network(message) => Error::Network(message.clone()),
            Error::MalformedResponse(message) => Error::MalformedResponse(message.clone()),
        }
    }
}

} // verus!

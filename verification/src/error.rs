//! What can go wrong.

use crate::views::views;
use vstd::prelude::*;
use vstd::std_specs::convert::FromSpecImpl;

verus! {

/// An error of the library. Failures of the devices and of the file system are
/// the caller's.
#[derive(Debug)]
pub enum Error {
    Msg(String),
    /// No channel answers to the name.
    ChannelNotFound(String),
    Parse(String),
    /// The frontend did not lock before the timeout.
    LockTimeout,
    /// A table could not be read.
    Si(String),
}

/// An error, with its text as characters.
pub enum ErrorView {
    Msg(Seq<char>),
    ChannelNotFound(Seq<char>),
    Parse(Seq<char>),
    LockTimeout,
    Si(Seq<char>),
}

impl View for Error {
    type V = ErrorView;

    open spec fn view(&self) -> ErrorView {
        match self {
            Error::Msg(s) => ErrorView::Msg(s@),
            Error::ChannelNotFound(s) => ErrorView::ChannelNotFound(s@),
            Error::Parse(s) => ErrorView::Parse(s@),
            Error::LockTimeout => ErrorView::LockTimeout,
            Error::Si(s) => ErrorView::Si(s@),
        }
    }
}

impl Clone for Error {
    fn clone(&self) -> (out: Self)
        ensures
            out@ == self@,
    {
        match self {
            Error::Msg(s) => Error::Msg(s.clone()),
            Error::ChannelNotFound(s) => Error::ChannelNotFound(s.clone()),
            Error::Parse(s) => Error::Parse(s.clone()),
            Error::LockTimeout => Error::LockTimeout,
            Error::Si(s) => Error::Si(s.clone()),
        }
    }
}

/// A result by the views of what it holds.
pub open spec fn outcome<T: View>(r: Result<T, Error>) -> Result<T::V, ErrorView> {
    match r {
        Ok(v) => Ok(v@),
        Err(e) => Err(e@),
    }
}

/// A resulting list by the views of its items.
pub open spec fn outcome_list<T: View>(r: Result<Vec<T>, Error>) -> Result<Seq<T::V>, ErrorView> {
    match r {
        Ok(v) => Ok(views(v@)),
        Err(e) => Err(e@),
    }
}

impl FromSpecImpl<String> for Error {
    open spec fn obeys_from_spec() -> bool {
        true
    }

    open spec fn from_spec(s: String) -> Error {
        Error::Msg(s)
    }
}

impl From<String> for Error {
    fn from(s: String) -> (e: Error) {
        Error::Msg(s)
    }
}

impl FromSpecImpl<&str> for Error {
    open spec fn obeys_from_spec() -> bool {
        false
    }

    open spec fn from_spec(s: &str) -> Error {
        arbitrary()
    }
}

impl From<&str> for Error {
    fn from(s: &str) -> (e: Error)
        ensures
            e@ == ErrorView::Msg(s@),
    {
        Error::Msg(s.to_owned())
    }
}

/// An error of a table, with a fixed text.
pub fn si_error(text: &str) -> (e: Error)
    ensures
        e@ == ErrorView::Si(text@),
{
    Error::Si(text.to_owned())
}

} // verus!

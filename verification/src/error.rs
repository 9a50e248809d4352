//! The library's error conditions.

use vstd::prelude::*;

use crate::keys::Key;
use crate::keys::KeyModel;
use crate::keys::display_of;

verus! {

/// The mathematical shape of an [`Error`].
pub enum ErrorModel {
    /// A required key was absent; carries the key that was sought.
    MissingArg(KeyModel),
    /// Some other failure, as its message.
    Other(Seq<char>),
}

/// A query that opted into an error-returning form failed.
#[derive(Debug)]
pub enum Error {
    /// A required argument was absent; carries the key that was sought, so
    /// that the caller can render it.
    MissingArg(Key),
    /// Wraps an arbitrary underlying failure as its message, for use at
    /// integration boundaries.
    Other(String),
}

impl View for Error {
    type V = ErrorModel;

    open spec fn view(&self) -> ErrorModel {
        match self {
            Error::MissingArg(k) => ErrorModel::MissingArg(k@),
            Error::Other(m) => ErrorModel::Other(m@),
        }
    }
}

/// The message of an error: a missing key is reported in its display form
/// inside quotes, any other failure as its own message.
pub open spec fn message_of(e: ErrorModel) -> Seq<char> {
    match e {
        ErrorModel::MissingArg(k) => "Missing argument: '"@ + display_of(k) + "'"@,
        ErrorModel::Other(m) => m,
    }
}

impl Error {
    /// Renders the error as a message for the user.
    pub fn display(&self) -> (r: String)
        ensures
            r@ == message_of(self@),
    {
        match self {
            Error::MissingArg(k) => {
                let mut s = String::from_str("Missing argument: '");
                s.append(k.display().as_str());
                s.append("'");
                assert(s@ =~= message_of(self@));
                s
            },
            Error::Other(m) => m.clone(),
        }
    }
}

impl PartialEq for Error {
    /// Two errors are equal exactly when their variant and contents match.
    fn eq(&self, other: &Error) -> (r: bool) {
        match (self, other) {
            (Error::MissingArg(a), Error::MissingArg(b)) => *a == *b,
            (Error::Other(a), Error::Other(b)) => *a == *b,
            _ => false,
        }
    }
}

impl vstd::std_specs::cmp::PartialEqSpecImpl for Error {
    open spec fn obeys_eq_spec() -> bool {
        true
    }

    open spec fn eq_spec(&self, other: &Error) -> bool {
        self@ == other@
    }
}

impl Eq for Error {

}

} // verus!

//! What can go wrong when a request is read.

use vstd::prelude::*;
use vstd::string::*;

verus! {

/// The errors of the request decoder.
#[derive(Debug, PartialEq, Eq)]
pub enum Error {
    /// The request is not complete yet.
    PartialRequest,
    /// The request cannot be read; the text says why.
    Parse(String),
}

/// What an `Error` stands for in contracts.
pub enum ErrorModel {
    PartialRequest,
    Parse(Seq<char>),
}

impl View for Error {
    type V = ErrorModel;

    open spec fn view(&self) -> ErrorModel {
        match *self {
            Error::PartialRequest => ErrorModel::PartialRequest,
            Error::Parse(s) => ErrorModel::Parse(s@),
        }
    }
}

/// The text that describes an error.
pub open spec fn error_text(e: ErrorModel) -> Seq<char> {
    match e {
        ErrorModel::Parse(s) => "Invalid method: "@ + s,
        ErrorModel::PartialRequest => "Partial request"@,
    }
}

/// The text that starts with `prefix` and goes on with `rest`.
pub fn joined(prefix: &str, rest: &str) -> (s: String)
    ensures
        s@ == prefix@ + rest@,
{
    let mut s = String::from_str(prefix);
    s.append(rest);
    s
}

impl Error {
    /// A parse error whose text is `prefix` followed by `rest`.
    pub fn parse(prefix: &str, rest: &str) -> (e: Error)
        ensures
            e@ == ErrorModel::Parse(prefix@ + rest@),
    {
        Error::Parse(joined(prefix, rest))
    }

    /// The text that describes the error.
    pub fn to_string(&self) -> (s: String)
        ensures
            s@ == error_text(self@),
    {
        match self {
            Error::Parse(text) => joined("Invalid method: ", text.as_str()),
            Error::PartialRequest => String::from_str("Partial request"),
        }
    }
}

} // verus!

//! The HTTP methods.

use vstd::prelude::*;
use vstd::string::*;
use crate::http::error::{Error, ErrorModel};
use crate::text::same_text;

verus! {

/// An HTTP method.
#[derive(Clone, Copy, Debug, PartialEq, Eq, Structural)]
pub enum Method {
    /// Requests a representation of a resource.
    Get,
    /// Like GET, without the body of the response.
    Head,
    /// Submits an entity to a resource.
    Post,
    /// Replaces what the resource holds with the payload.
    Put,
    /// Deletes the resource.
    Delete,
    /// Opens a tunnel to the server that the resource names.
    Connect,
    /// Describes how the resource can be talked to.
    Options,
    /// Echoes the request along the path to the resource.
    Trace,
    /// Changes a part of the resource.
    Patch,
}

/// The text that names a method.
pub open spec fn method_text(m: Method) -> Seq<char> {
    match m {
        Method::Get => "GET"@,
        Method::Head => "HEAD"@,
        Method::Post => "POST"@,
        Method::Put => "PUT"@,
        Method::Delete => "DELETE"@,
        Method::Connect => "CONNECT"@,
        Method::Options => "OPTIONS"@,
        Method::Trace => "TRACE"@,
        Method::Patch => "PATCH"@,
    }
}

/// The method that a text names.
pub open spec fn method_of(s: Seq<char>) -> Option<Method> {
    if s == "GET"@ {
        Some(Method::Get)
    } else if s == "HEAD"@ {
        Some(Method::Head)
    } else if s == "POST"@ {
        Some(Method::Post)
    } else if s == "PUT"@ {
        Some(Method::Put)
    } else if s == "DELETE"@ {
        Some(Method::Delete)
    } else if s == "CONNECT"@ {
        Some(Method::Connect)
    } else if s == "OPTIONS"@ {
        Some(Method::Options)
    } else if s == "TRACE"@ {
        Some(Method::Trace)
    } else if s == "PATCH"@ {
        Some(Method::Patch)
    } else {
        None
    }
}

/// What reading a method from a text gives: the method, or an error that
/// quotes the text.
pub open spec fn method_result(s: Seq<char>, r: Result<Method, Error>) -> bool {
    match r {
        Ok(m) => method_of(s) == Some(m),
        Err(e) => method_of(s) is None && e@ == ErrorModel::Parse("Unknown HTTP method: "@ + s),
    }
}

impl<'a> TryFrom<&'a str> for Method {
    type Error = Error;

    fn try_from(s: &'a str) -> (r: Result<Method, Error>)
        ensures
            method_result(s@, r),
    {
        if same_text(s, "GET") {
            Ok(Method::Get)
        } else if same_text(s, "HEAD") {
            Ok(Method::Head)
        } else if same_text(s, "POST") {
            Ok(Method::Post)
        } else if same_text(s, "PUT") {
            Ok(Method::Put)
        } else if same_text(s, "DELETE") {
            Ok(Method::Delete)
        } else if same_text(s, "CONNECT") {
            Ok(Method::Connect)
        } else if same_text(s, "OPTIONS") {
            Ok(Method::Options)
        } else if same_text(s, "TRACE") {
            Ok(Method::Trace)
        } else if same_text(s, "PATCH") {
            Ok(Method::Patch)
        } else {
            Err(Error::parse("Unknown HTTP method: ", s))
        }
    }
}

/// The conversion writes an error text, which no function of contracts can
/// make: what `try_from` returns is stated by its own contract.
impl<'a> vstd::std_specs::convert::TryFromSpecImpl<&'a str> for Method {
    open spec fn obeys_try_from_spec() -> bool {
        false
    }

    open spec fn try_from_spec(s: &'a str) -> Result<Method, Error> {
        arbitrary()
    }
}

impl Method {
    /// The text that names the method.
    pub fn to_string(&self) -> (s: String)
        ensures
            s@ == method_text(*self),
    {
        match self {
            Method::Get => String::from_str("GET"),
            Method::Head => String::from_str("HEAD"),
            Method::Post => String::from_str("POST"),
            Method::Put => String::from_str("PUT"),
            Method::Delete => String::from_str("DELETE"),
            Method::Connect => String::from_str("CONNECT"),
            Method::Options => String::from_str("OPTIONS"),
            Method::Trace => String::from_str("TRACE"),
            Method::Patch => String::from_str("PATCH"),
        }
    }
}

} // verus!

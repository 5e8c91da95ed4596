//! The HTTP version.

use vstd::prelude::*;
use vstd::string::*;
use crate::http::error::{Error, ErrorModel};
use crate::text::same_text;

verus! {

/// The HTTP version.
#[derive(Clone, Copy, Debug, PartialEq, Eq, Structural)]
pub enum Version {
    /// Version 1.0
    V1_0,
    /// Version 1.1
    V1_1,
    /// Version 2.0
    V2_0,
}

/// The text that names a version.
pub open spec fn version_text(v: Version) -> Seq<char> {
    match v {
        Version::V1_0 => "HTTP/1.0"@,
        Version::V1_1 => "HTTP/1.1"@,
        Version::V2_0 => "HTTP/2.0"@,
    }
}

/// The version that a text names.
pub open spec fn version_of(s: Seq<char>) -> Option<Version> {
    if s == "HTTP/1.0"@ {
        Some(Version::V1_0)
    } else if s == "HTTP/1.1"@ {
        Some(Version::V1_1)
    } else if s == "HTTP/2.0"@ {
        Some(Version::V2_0)
    } else {
        None
    }
}

/// What reading a version from a text gives: the version, or an error that
/// quotes the text.
pub open spec fn version_result(s: Seq<char>, r: Result<Version, Error>) -> bool {
    match r {
        Ok(v) => version_of(s) == Some(v),
        Err(e) => version_of(s) is None && e@ == ErrorModel::Parse("Unknown HTTP version: "@ + s),
    }
}

impl<'a> TryFrom<&'a str> for Version {
    type Error = Error;

    fn try_from(s: &'a str) -> (r: Result<Version, Error>)
        ensures
            version_result(s@, r),
    {
        if same_text(s, "HTTP/1.0") {
            Ok(Version::V1_0)
        } else if same_text(s, "HTTP/1.1") {
            Ok(Version::V1_1)
        } else if same_text(s, "HTTP/2.0") {
            Ok(Version::V2_0)
        } else {
            Err(Error::parse("Unknown HTTP version: ", s))
        }
    }
}

/// The conversion writes an error text, which no function of contracts can
/// make: what `try_from` returns is stated by its own contract.
impl<'a> vstd::std_specs::convert::TryFromSpecImpl<&'a str> for Version {
    open spec fn obeys_try_from_spec() -> bool {
        false
    }

    open spec fn try_from_spec(s: &'a str) -> Result<Version, Error> {
        arbitrary()
    }
}

impl Version {
    /// The text that names the version.
    pub fn to_string(&self) -> (s: String)
        ensures
            s@ == version_text(*self),
    {
        match self {
            Version::V1_0 => String::from_str("HTTP/1.0"),
            Version::V1_1 => String::from_str("HTTP/1.1"),
            Version::V2_0 => String::from_str("HTTP/2.0"),
        }
    }
}

} // verus!

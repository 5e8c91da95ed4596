//! An HTTP response.

use vstd::prelude::*;
use vstd::string::*;
use vstd::utf8::encode_utf8;
use crate::http::headers::{entries_with, header_lines, lowercase_of, map_of, Entry, Headers};
use crate::http::status::{status_text, Status};
use crate::http::version::{version_text, Version};
use crate::text::{decimal, push_decimal};

verus! {

/// An HTTP response.
#[derive(Clone, Debug, PartialEq)]
pub struct Response {
    pub version: Version,
    pub status: Status,
    pub headers: Headers,
    pub body: Option<String>,
}

/// The text of an optional body; empty where there is none.
pub open spec fn body_text(body: Option<String>) -> Seq<char> {
    match body {
        Some(b) => b@,
        None => Seq::empty(),
    }
}

/// The headers of a new response: those given, a content type of
/// `text/html` unless one is given, and, for a response with a body, the
/// length of the body in bytes unless a content length is given.
pub open spec fn response_headers(given: Seq<Entry>, body: Option<String>) -> Seq<Entry> {
    let typed = if map_of(given).contains_key("content-type"@) {
        given
    } else {
        entries_with(given, lowercase_of("content-type"@), "text/html"@)
    };
    match body {
        Some(b) => if map_of(typed).contains_key("content-length"@) {
            typed
        } else {
            entries_with(typed, lowercase_of("content-length"@), decimal(encode_utf8(b@).len()))
        },
        None => typed,
    }
}

/// The text of a response: status line, header lines, an empty line, and
/// the body.
pub open spec fn response_text(
    version: Version,
    status: Status,
    headers: Seq<Entry>,
    body: Seq<char>,
) -> Seq<char> {
    version_text(version) + " "@ + status_text(status) + "\r\n"@ + header_lines(headers)
        + "\r\n\r\n"@ + body
}

impl Default for Response {
    fn default() -> (r: Response)
        ensures
            r.version == Version::V1_1,
            r.status == Status::OK,
            r.headers@ == Seq::<Entry>::empty(),
            r.body is None,
    {
        Response { version: Version::V1_1, status: Status::OK, headers: Headers::new(), body: None }
    }
}

impl Response {
    /// A response of version 1.1 with the given status, headers and body.
    pub fn new(status: Status, headers: Headers, body: Option<String>) -> (r: Response)
        ensures
            r.version == Version::V1_1,
            r.status == status,
            r.body == body,
            r.headers@ == response_headers(headers@, body),
    {
        let mut headers = headers;
        if !headers.contains_key(Headers::CONTENT_TYPE) {
            headers.insert(Headers::CONTENT_TYPE, "text/html");
        }
        match &body {
            Some(b) => {
                if !headers.contains_key(Headers::CONTENT_LENGTH) {
                    let mut length = String::new();
                    let size: usize = b.as_str().as_bytes().len();
                    push_decimal(&mut length, size as u64);
                    assert(Seq::<char>::empty() + decimal(size as nat) == decimal(size as nat));
                    headers.insert(Headers::CONTENT_LENGTH, length.as_str());
                }
            },
            None => {},
        }
        Response { version: Version::V1_1, status, headers, body }
    }

    /// The body; empty where there is none.
    pub fn body(&self) -> (b: &str)
        ensures
            b@ == body_text(self.body),
    {
        proof {
            reveal_strlit("");
        }
        match &self.body {
            Some(b) => b.as_str(),
            None => "",
        }
    }

    /// The response as it goes over the wire.
    pub fn to_string(&self) -> (s: String)
        ensures
            s@ == response_text(self.version, self.status, self.headers@, body_text(self.body)),
    {
        let mut s = self.version.to_string();
        s.append(" ");
        s.append(self.status.to_string().as_str());
        s.append("\r\n");
        s.append(self.headers.to_string().as_str());
        s.append("\r\n\r\n");
        s.append(self.body());
        s
    }
}

} // verus!

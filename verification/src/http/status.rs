//! The HTTP status codes.

use vstd::prelude::*;
use vstd::string::*;

verus! {

/// An HTTP status.
#[derive(Clone, Copy, Debug, PartialEq, Eq, Structural)]
pub enum Status {
    Continue,
    SwitchingProtocol,
    /// 200; named in capitals, as in the status line.
    OK,
    Created,
    Accepted,
    NonAuthoritative,
    NoContent,
    ResetContent,
    PartialContent,
    MultipleChoices,
    MovedPermanently,
    Found,
    SeeOther,
    NotModified,
    UseProxy,
    TemporaryRedirect,
    BadRequest,
    Unauthorized,
    PaymentRequired,
    Forbidden,
    NotFound,
    MethodNotAllowed,
    NotAcceptable,
    ProxyAuthenticationRequired,
    RequestTimeout,
    Conflict,
    Gone,
    LengthRequired,
    PreconditionFailed,
    PayloadTooLarge,
    UriTooLong,
    UnsupportedMediaType,
    RangeNotSatisified,
    ExpectationFailed,
    UpgradeRequired,
    InternalServerError,
    NotImplemented,
    BadGateway,
    ServiceUnavailable,
    GatewayTimeout,
    HttpVersionNotSupported,
}

/// The status line text of a status: its code and its reason phrase.
pub open spec fn status_text(s: Status) -> Seq<char> {
    match s {
        Status::Continue => "100 Continue"@,
        Status::SwitchingProtocol => "101 Switching Protocol"@,
        Status::OK => "200 OK"@,
        Status::Created => "201 Created"@,
        Status::Accepted => "202 Accepted"@,
        Status::NonAuthoritative => "203 Non-Authoritative Information"@,
        Status::NoContent => "204 No Content"@,
        Status::ResetContent => "205 Reset Content"@,
        Status::PartialContent => "206 Partial Content"@,
        Status::MultipleChoices => "300 Multiple Choices"@,
        Status::MovedPermanently => "301 Moved Permanently"@,
        Status::Found => "302 Found"@,
        Status::SeeOther => "303 See Other"@,
        Status::NotModified => "304 Not Modified"@,
        Status::UseProxy => "305 Use Proxy"@,
        Status::TemporaryRedirect => "307 Temporary Redirect"@,
        Status::BadRequest => "400 Bad Request"@,
        Status::Unauthorized => "401 Unauthorized"@,
        Status::PaymentRequired => "402 Payment Required"@,
        Status::Forbidden => "403 Forbidden"@,
        Status::NotFound => "404 Not Found"@,
        Status::MethodNotAllowed => "405 Method Not Allowed"@,
        Status::NotAcceptable => "406 Not Acceptable"@,
        Status::ProxyAuthenticationRequired => "407 Proxy Authentication Required"@,
        Status::RequestTimeout => "408 Request Timeout"@,
        Status::Conflict => "409 Conflict"@,
        Status::Gone => "410 Gone"@,
        Status::LengthRequired => "411 Length Required"@,
        Status::PreconditionFailed => "412 Precondition Failed"@,
        Status::PayloadTooLarge => "413 Payload Too Large"@,
        Status::UriTooLong => "414 URI Too Long"@,
        Status::UnsupportedMediaType => "415 Unsupported Media Type"@,
        Status::RangeNotSatisified => "416 Range Not Satisfiable"@,
        Status::ExpectationFailed => "417 Expectation Failed"@,
        Status::UpgradeRequired => "426 Upgrade Required"@,
        Status::InternalServerError => "500 Internal Server Error"@,
        Status::NotImplemented => "501 Not Implemented"@,
        Status::BadGateway => "502 Bad Gateway"@,
        Status::ServiceUnavailable => "503 Service Unavailable"@,
        Status::GatewayTimeout => "504 Gateway Timeout"@,
        Status::HttpVersionNotSupported => "505 HTTP Version Not Supported"@,
    }
}

impl Status {
    /// The code and the reason phrase, as they stand in a status line.
    pub fn to_string(&self) -> (s: String)
        ensures
            s@ == status_text(*self),
    {
        match self {
            Status::Continue => String::from_str("100 Continue"),
            Status::SwitchingProtocol => String::from_str("101 Switching Protocol"),
            Status::OK => String::from_str("200 OK"),
            Status::Created => String::from_str("201 Created"),
            Status::Accepted => String::from_str("202 Accepted"),
            Status::NonAuthoritative => String::from_str("203 Non-Authoritative Information"),
            Status::NoContent => String::from_str("204 No Content"),
            Status::ResetContent => String::from_str("205 Reset Content"),
            Status::PartialContent => String::from_str("206 Partial Content"),
            Status::MultipleChoices => String::from_str("300 Multiple Choices"),
            Status::MovedPermanently => String::from_str("301 Moved Permanently"),
            Status::Found => String::from_str("302 Found"),
            Status::SeeOther => String::from_str("303 See Other"),
            Status::NotModified => String::from_str("304 Not Modified"),
            Status::UseProxy => String::from_str("305 Use Proxy"),
            Status::TemporaryRedirect => String::from_str("307 Temporary Redirect"),
            Status::BadRequest => String::from_str("400 Bad Request"),
            Status::Unauthorized => String::from_str("401 Unauthorized"),
            Status::PaymentRequired => String::from_str("402 Payment Required"),
            Status::Forbidden => String::from_str("403 Forbidden"),
            Status::NotFound => String::from_str("404 Not Found"),
            Status::MethodNotAllowed => String::from_str("405 Method Not Allowed"),
            Status::NotAcceptable => String::from_str("406 Not Acceptable"),
            Status::ProxyAuthenticationRequired => String::from_str("407 Proxy Authentication Required"),
            Status::RequestTimeout => String::from_str("408 Request Timeout"),
            Status::Conflict => String::from_str("409 Conflict"),
            Status::Gone => String::from_str("410 Gone"),
            Status::LengthRequired => String::from_str("411 Length Required"),
            Status::PreconditionFailed => String::from_str("412 Precondition Failed"),
            Status::PayloadTooLarge => String::from_str("413 Payload Too Large"),
            Status::UriTooLong => String::from_str("414 URI Too Long"),
            Status::UnsupportedMediaType => String::from_str("415 Unsupported Media Type"),
            Status::RangeNotSatisified => String::from_str("416 Range Not Satisfiable"),
            Status::ExpectationFailed => String::from_str("417 Expectation Failed"),
            Status::UpgradeRequired => String::from_str("426 Upgrade Required"),
            Status::InternalServerError => String::from_str("500 Internal Server Error"),
            Status::NotImplemented => String::from_str("501 Not Implemented"),
            Status::BadGateway => String::from_str("502 Bad Gateway"),
            Status::ServiceUnavailable => String::from_str("503 Service Unavailable"),
            Status::GatewayTimeout => String::from_str("504 Gateway Timeout"),
            Status::HttpVersionNotSupported => String::from_str("505 HTTP Version Not Supported"),
        }
    }
}

} // verus!

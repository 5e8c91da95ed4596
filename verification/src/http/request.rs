//! The request decoder: the text of a request becomes its method, target,
//! version, headers and body.

use vstd::prelude::*;
use vstd::string::*;
use vstd::utf8::{decode_utf8, encode_utf8, valid_utf8};
use crate::http::error::{Error, ErrorModel};
use crate::http::headers::{entries_with, lowercase_of, map_of, Entry, Headers};
use crate::http::method::{method_of, Method};
use crate::http::uri::{decode, percent_decoded, utf8_error_text};
use crate::http::version::{version_of, Version};
use crate::text::{
    chars_of, digit_value, is_space, lines_of, split_lines, string_of, subvec, text_of, texts,
    trim, trim_start, trimmed,
};

verus! {

/// An HTTP request.
#[derive(Debug, PartialEq)]
pub struct Request {
    /// The HTTP method of the request.
    pub method: Method,
    /// The HTTP version of the request.
    pub version: Version,
    /// The target of the request, percent-decoded.
    pub uri: String,
    /// The HTTP headers.
    pub headers: Headers,
    /// The body that came with the request.
    pub body: String,
}

/// What a `Request` stands for in contracts.
pub struct RequestModel {
    pub method: Method,
    pub version: Version,
    pub uri: Seq<char>,
    pub headers: Seq<Entry>,
    pub body: Seq<char>,
}

impl View for Request {
    type V = RequestModel;

    open spec fn view(&self) -> RequestModel {
        RequestModel {
            method: self.method,
            version: self.version,
            uri: self.uri@,
            headers: self.headers@,
            body: self.body@,
        }
    }
}

/// The place of the first white space of a text; its length when it has
/// none.
pub open spec fn space_at(s: Seq<char>) -> nat
    decreases s.len(),
{
    if s.len() == 0 || is_space(s[0]) {
        0
    } else {
        1 + space_at(s.drop_first())
    }
}

/// The first word of a text, and what follows the word. A word is a run of
/// characters that are not white space.
pub open spec fn next_word(s: Seq<char>) -> Option<(Seq<char>, Seq<char>)> {
    let t = trim_start(s);
    if t.len() == 0 {
        None
    } else {
        Some((t.subrange(0, space_at(t) as int), t.subrange(space_at(t) as int, t.len() as int)))
    }
}

/// The place of the first `c` of a text; its length when it has none.
pub open spec fn position_of(s: Seq<char>, c: char) -> nat
    decreases s.len(),
{
    if s.len() == 0 || s[0] == c {
        0
    } else {
        1 + position_of(s.drop_first(), c)
    }
}

/// The three parts of a request line.
pub struct RequestLine {
    pub method: Method,
    pub uri: Seq<char>,
    pub version: Version,
}

/// What a request line says: its first three words are the method, the
/// target and the version. A missing word is an error; then a target that
/// does not decode to UTF-8, an unknown method and an unknown version, in
/// this order.
pub open spec fn request_line(s: Seq<char>) -> Result<RequestLine, ErrorModel> {
    match next_word(s) {
        None => Err(ErrorModel::Parse("Missing HTTP method"@)),
        Some(first) => match next_word(first.1) {
            None => Err(ErrorModel::Parse("Missing HTTP URI"@)),
            Some(second) => match next_word(second.1) {
                None => Err(ErrorModel::Parse("Missing HTTP version"@)),
                Some(third) => {
                    let bytes = percent_decoded(encode_utf8(second.0));
                    if !valid_utf8(bytes) {
                        Err(ErrorModel::Parse(utf8_error_text(bytes)))
                    } else {
                        match method_of(first.0) {
                            None => Err(ErrorModel::Parse("Unknown HTTP method: "@ + first.0)),
                            Some(method) => match version_of(third.0) {
                                None => Err(
                                    ErrorModel::Parse("Unknown HTTP version: "@ + third.0),
                                ),
                                Some(version) => Ok(
                                    RequestLine { method, uri: decode_utf8(bytes), version },
                                ),
                            },
                        }
                    }
                },
            },
        },
    }
}

/// What a header line says: the name is what stands before the first
/// colon, and must not be empty; the value is what stands between the first
/// colon and the second, without the white space around it.
pub open spec fn header_line(s: Seq<char>) -> Result<Entry, ErrorModel> {
    let colon = position_of(s, ':');
    if colon == 0 {
        Err(ErrorModel::Parse("Invalid header key provided: "@ + s))
    } else if colon >= s.len() {
        Ok((s, Seq::empty()))
    } else {
        let rest = s.subrange(colon as int + 1, s.len() as int);
        Ok((s.subrange(0, colon as int), trim(rest.subrange(0, position_of(rest, ':') as int))))
    }
}

/// The headers that the lines from `idx` on set, added to `entries`, and
/// the place of the first line of the body. The headers end at an empty
/// line; a request without one is not complete.
pub open spec fn headers_from(lines: Seq<Seq<char>>, idx: int, entries: Seq<Entry>) -> Result<
    (Seq<Entry>, int),
    ErrorModel,
>
    decreases lines.len() - idx,
{
    if idx < 0 || idx >= lines.len() {
        Err(ErrorModel::PartialRequest)
    } else if lines[idx].len() == 0 {
        Ok((entries, idx + 1))
    } else {
        match header_line(lines[idx]) {
            Err(e) => Err(e),
            Ok(entry) => headers_from(
                lines,
                idx + 1,
                entries_with(entries, lowercase_of(entry.0), entry.1),
            ),
        }
    }
}

/// The body `body` with the lines from `idx` on added to it, each after a
/// line feed, but that nothing is put before the first text of the body: an
/// empty body stays empty until a line that is not empty comes.
pub open spec fn body_with(body: Seq<char>, lines: Seq<Seq<char>>, idx: int) -> Seq<char>
    decreases lines.len() - idx,
{
    if idx < 0 || idx >= lines.len() {
        body
    } else if body.len() == 0 {
        body_with(lines[idx], lines, idx + 1)
    } else {
        body_with(body + "\n"@ + lines[idx], lines, idx + 1)
    }
}

/// The body that the lines from `idx` on make.
pub open spec fn body_from(lines: Seq<Seq<char>>, idx: int) -> Seq<char> {
    body_with(Seq::empty(), lines, idx)
}

/// Why a text is not a number.
pub enum IntError {
    Empty,
    InvalidDigit,
    Overflow,
}

/// The text that describes why a text is not a number.
pub open spec fn int_error_text(e: IntError) -> Seq<char> {
    match e {
        IntError::Empty => "cannot parse integer from empty string"@,
        IntError::InvalidDigit => "invalid digit found in string"@,
        IntError::Overflow => "number too large to fit in target type"@,
    }
}

/// The value of a run of decimal digits read from the left, `acc` being the
/// value of the digits already read.
pub open spec fn digits_value(s: Seq<char>, acc: nat) -> Result<nat, IntError>
    decreases s.len(),
{
    if s.len() == 0 {
        Ok(acc)
    } else {
        match digit_value(s[0]) {
            None => Err(IntError::InvalidDigit),
            Some(d) => if acc * 10 + d > usize::MAX {
                Err(IntError::Overflow)
            } else {
                digits_value(s.drop_first(), acc * 10 + d)
            },
        }
    }
}

/// The length that a text writes: decimal digits, with a `+` before them
/// at will, that give a number of the machine's word size.
pub open spec fn length_of(s: Seq<char>) -> Result<nat, IntError> {
    if s.len() == 0 {
        Err(IntError::Empty)
    } else if s.len() == 1 && (s[0] == '+' || s[0] == '-') {
        Err(IntError::InvalidDigit)
    } else if s[0] == '+' {
        digits_value(s.drop_first(), 0)
    } else {
        digits_value(s, 0)
    }
}

/// What the text of a request says.
///
/// The first line is the request line. Header lines follow, up to an empty
/// line, and the rest is the body. A content length larger than the body
/// has bytes means that the request is not complete; a body without a
/// content length is an error.
pub open spec fn request_of(text: Seq<char>) -> Result<RequestModel, ErrorModel> {
    let lines = lines_of(text);
    if lines.len() == 0 {
        Err(ErrorModel::Parse("Missing HTTP request line"@))
    } else {
        match request_line(lines[0]) {
            Err(e) => Err(e),
            Ok(first) => match headers_from(lines, 1, Seq::empty()) {
                Err(e) => Err(e),
                Ok(found) => {
                    let headers = found.0;
                    let body = body_from(lines, found.1);
                    let request = RequestModel {
                        method: first.method,
                        version: first.version,
                        uri: first.uri,
                        headers,
                        body,
                    };
                    let name = lowercase_of("content-length"@);
                    if map_of(headers).contains_key(name) {
                        match length_of(map_of(headers)[name]) {
                            Err(e) => Err(ErrorModel::Parse(int_error_text(e))),
                            Ok(length) => if length > encode_utf8(body).len() {
                                Err(ErrorModel::PartialRequest)
                            } else {
                                Ok(request)
                            },
                        }
                    } else if body.len() > 0 {
                        Err(
                            ErrorModel::Parse(
                                "Parsed a body without a content-length: "@ + body,
                            ),
                        )
                    } else {
                        Ok(request)
                    }
                },
            },
        }
    }
}

/// Whether a result of the decoder is what the text of the request says.
pub open spec fn request_result(text: Seq<char>, r: Result<Request, Error>) -> bool {
    match r {
        Ok(request) => request_of(text) == Ok::<RequestModel, ErrorModel>(request@),
        Err(e) => request_of(text) == Err::<RequestModel, ErrorModel>(e@),
    }
}

fn skip_spaces(chars: &Vec<char>) -> (v: Vec<char>)
    ensures
        v@ == trim_start(chars@),
{
    let n: usize = chars.len();
    let mut from: usize = 0;
    assert(chars@.subrange(0, n as int) == chars@);
    while from < n && chars[from].is_whitespace()
        invariant
            from <= n == chars.len(),
            trim_start(chars@) == trim_start(chars@.subrange(from as int, n as int)),
        decreases n - from,
    {
        assert(chars@.subrange(from as int, n as int).drop_first() == chars@.subrange(
            from + 1,
            n as int,
        ));
        from += 1;
    }
    subvec(chars, from, n)
}

fn find_space(chars: &Vec<char>) -> (k: usize)
    ensures
        k == space_at(chars@),
        k <= chars.len(),
{
    let n: usize = chars.len();
    let mut k: usize = 0;
    assert(chars@.subrange(0, n as int) == chars@);
    while k < n && !chars[k].is_whitespace()
        invariant
            k <= n == chars.len(),
            space_at(chars@) == k + space_at(chars@.subrange(k as int, n as int)),
        decreases n - k,
    {
        assert(chars@.subrange(k as int, n as int).drop_first() == chars@.subrange(k + 1, n as int));
        k += 1;
    }
    k
}

fn find_char(chars: &Vec<char>, c: char) -> (k: usize)
    ensures
        k == position_of(chars@, c),
        k <= chars.len(),
{
    let n: usize = chars.len();
    let mut k: usize = 0;
    assert(chars@.subrange(0, n as int) == chars@);
    while k < n && chars[k] != c
        invariant
            k <= n == chars.len(),
            position_of(chars@, c) == k + position_of(chars@.subrange(k as int, n as int), c),
        decreases n - k,
    {
        assert(chars@.subrange(k as int, n as int).drop_first() == chars@.subrange(k + 1, n as int));
        k += 1;
    }
    k
}

fn word(chars: &Vec<char>) -> (found: Option<(Vec<char>, Vec<char>)>)
    ensures
        match found {
            Some(w) => next_word(chars@) == Some((w.0@, w.1@)),
            None => next_word(chars@) is None,
        },
{
    let t = skip_spaces(chars);
    if t.len() == 0 {
        None
    } else {
        let k: usize = find_space(&t);
        Some((subvec(&t, 0, k), subvec(&t, k, t.len())))
    }
}

/// What a result of reading the request line stands for.
pub open spec fn request_line_view(r: Result<(Method, String, Version), Error>) -> Result<
    RequestLine,
    ErrorModel,
> {
    match r {
        Ok(parts) => Ok(RequestLine { method: parts.0, uri: parts.1@, version: parts.2 }),
        Err(e) => Err(e@),
    }
}

/// Reads the request line: method, target and version.
pub fn parse_request_line(line: &Vec<char>) -> (r: Result<(Method, String, Version), Error>)
    ensures
        request_line_view(r) == request_line(line@),
{
    let first = match word(line) {
        Some(w) => w,
        None => {
            return Err(Error::Parse(String::from_str("Missing HTTP method")));
        },
    };
    let second = match word(&first.1) {
        Some(w) => w,
        None => {
            return Err(Error::Parse(String::from_str("Missing HTTP URI")));
        },
    };
    let third = match word(&second.1) {
        Some(w) => w,
        None => {
            return Err(Error::Parse(String::from_str("Missing HTTP version")));
        },
    };
    let uri = match decode(text_of(&second.0).as_str()) {
        Ok(uri) => uri,
        Err(e) => {
            return Err(e);
        },
    };
    let method = match Method::try_from(text_of(&first.0).as_str()) {
        Ok(method) => method,
        Err(e) => {
            return Err(e);
        },
    };
    let version = match Version::try_from(text_of(&third.0).as_str()) {
        Ok(version) => version,
        Err(e) => {
            return Err(e);
        },
    };
    Ok((method, uri, version))
}

/// What a result of reading a header line stands for.
pub open spec fn header_line_view(r: Result<(String, String), Error>) -> Result<Entry, ErrorModel> {
    match r {
        Ok(entry) => Ok((entry.0@, entry.1@)),
        Err(e) => Err(e@),
    }
}

/// Reads a header line: name and value.
pub fn parse_header_line(line: &Vec<char>) -> (r: Result<(String, String), Error>)
    ensures
        header_line_view(r) == header_line(line@),
{
    let n: usize = line.len();
    let colon: usize = find_char(line, ':');
    if colon == 0 {
        return Err(Error::parse("Invalid header key provided: ", text_of(line).as_str()));
    }
    if colon >= n {
        proof {
            reveal_strlit("");
            assert(""@ =~= Seq::<char>::empty());
        }
        return Ok((text_of(line), String::from_str("")));
    }
    let rest = subvec(line, colon + 1, n);
    let end: usize = find_char(&rest, ':');
    let value = trimmed(&subvec(&rest, 0, end));
    Ok((string_of(line, 0, colon), text_of(&value)))
}

/// What a result of reading a length stands for.
pub open spec fn length_view(r: Result<usize, Error>) -> Result<nat, ErrorModel> {
    match r {
        Ok(n) => Ok(n as nat),
        Err(e) => Err(e@),
    }
}

/// What reading a length gives, with the error as the decoder reports it.
pub open spec fn length_result(s: Seq<char>) -> Result<nat, ErrorModel> {
    match length_of(s) {
        Ok(n) => Ok(n),
        Err(e) => Err(ErrorModel::Parse(int_error_text(e))),
    }
}

/// Reads the value of a content length.
pub fn parse_length(text: &Vec<char>) -> (r: Result<usize, Error>)
    ensures
        length_view(r) == length_result(text@),
{
    let n: usize = text.len();
    if n == 0 {
        return Err(Error::Parse(String::from_str("cannot parse integer from empty string")));
    }
    if n == 1 && (text[0] == '+' || text[0] == '-') {
        return Err(Error::Parse(String::from_str("invalid digit found in string")));
    }
    let from: usize = if text[0] == '+' {
        1
    } else {
        0
    };
    assert(text@.subrange(1, n as int) == text@.drop_first());
    assert(text@.subrange(0, n as int) == text@);
    let mut acc: usize = 0;
    let mut i: usize = from;
    while i < n
        invariant
            from <= i <= n == text.len(),
            digits_value(text@.subrange(i as int, n as int), acc as nat) == length_of(text@),
        decreases n - i,
    {
        let c: char = text[i];
        assert(text@.subrange(i as int, n as int).drop_first() == text@.subrange(i + 1, n as int));
        if c < '0' || c > '9' {
            return Err(Error::Parse(String::from_str("invalid digit found in string")));
        }
        let d: usize = (c as u32 - '0' as u32) as usize;
        if acc > (usize::MAX - d) / 10 {
            assert(acc * 10 + d > usize::MAX) by (nonlinear_arith)
                requires
                    acc > (usize::MAX - d) / 10,
                    d <= usize::MAX,
            ;
            return Err(Error::Parse(String::from_str("number too large to fit in target type")));
        }
        assert(acc * 10 + d <= usize::MAX) by (nonlinear_arith)
            requires
                acc <= (usize::MAX - d) / 10,
                d <= usize::MAX,
        ;
        acc = acc * 10 + d;
        i += 1;
    }
    Ok(acc)
}

/// Makes the body of the lines from `idx` on.
fn join_lines(lines: &Vec<Vec<char>>, idx: usize) -> (body: String)
    ensures
        body@ == body_from(texts(lines@), idx as int),
{
    let mut body = String::new();
    let mut k: usize = idx;
    while k < lines.len()
        invariant
            body_with(body@, texts(lines@), k as int) == body_from(texts(lines@), idx as int),
        decreases lines.len() - k,
    {
        assert(texts(lines@)[k as int] == lines[k as int]@);
        if body.as_str().unicode_len() > 0 {
            body.append("\n");
            body.append(text_of(&lines[k]).as_str());
        } else {
            body = text_of(&lines[k]);
        }
        k += 1;
    }
    body
}

impl TryFrom<String> for Request {
    type Error = Error;

    /// Reads a request from its text.
    fn try_from(req: String) -> (r: Result<Request, Error>)
        ensures
            request_result(req@, r),
    {
        let lines = split_lines(&chars_of(req.as_str()));
        let ghost all = texts(lines@);
        let n: usize = lines.len();
        if n == 0 {
            return Err(Error::Parse(String::from_str("Missing HTTP request line")));
        }
        assert(all[0] == lines[0]@);
        let (method, uri, version) = match parse_request_line(&lines[0]) {
            Ok(parts) => parts,
            Err(e) => {
                return Err(e);
            },
        };
        let mut headers = Headers::new();
        let mut idx: usize = 1;
        let mut found_break: bool = false;
        while !found_break && idx < n
            invariant
                1 <= idx <= n == lines.len(),
                all == texts(lines@),
                all == lines_of(req@),
                request_line(all[0]) == Ok::<RequestLine, ErrorModel>(
                    RequestLine { method, uri: uri@, version },
                ),
                !found_break ==> headers_from(all, idx as int, headers@) == headers_from(
                    all,
                    1,
                    Seq::empty(),
                ),
                found_break ==> headers_from(all, 1, Seq::empty()) == Ok::<
                    (Seq<Entry>, int),
                    ErrorModel,
                >((headers@, idx as int)),
            decreases n - idx + (if found_break { 0int } else { 1int }),
        {
            let line = &lines[idx];
            assert(all[idx as int] == line@);
            if line.len() == 0 {
                found_break = true;
            } else {
                let (k, v) = match parse_header_line(line) {
                    Ok(entry) => entry,
                    Err(e) => {
                        return Err(e);
                    },
                };
                headers.insert(k.as_str(), v.as_str());
            }
            idx += 1;
        }
        if !found_break {
            return Err(Error::PartialRequest);
        }
        let body = join_lines(&lines, idx);
        proof {
            crate::http::headers::lemma_map_of_last(headers@, lowercase_of("content-length"@));
        }
        match headers.get(Headers::CONTENT_LENGTH) {
            Some(v) => {
                let length: usize = match parse_length(&chars_of(v.as_str())) {
                    Ok(length) => length,
                    Err(e) => {
                        return Err(e);
                    },
                };
                if length > body.as_str().as_bytes().len() {
                    return Err(Error::PartialRequest);
                }
            },
            None => {
                if body.as_str().unicode_len() > 0 {
                    return Err(
                        Error::parse("Parsed a body without a content-length: ", body.as_str()),
                    );
                }
            },
        }
        Ok(Request { method, version, uri, headers, body })
    }
}

/// The conversion writes an error text, which no function of contracts can
/// make: what `try_from` returns is stated by its own contract.
impl vstd::std_specs::convert::TryFromSpecImpl<String> for Request {
    open spec fn obeys_try_from_spec() -> bool {
        false
    }

    open spec fn try_from_spec(req: String) -> Result<Request, Error> {
        arbitrary()
    }
}

} // verus!

use mark::http::{Error, Headers, Method, Request, Version};

#[test]
fn read_http_request() {
    let s = String::from(
        "GET /test%20url HTTP/1.1
Host: localhost
User-Agent: Archive
Accept: */*

",
    );

    let mut headers = Headers::new();
    headers.insert(Headers::HOST, "localhost");
    headers.insert(Headers::USER_AGENT, "Archive");
    headers.insert(Headers::ACCEPT, "*/*");

    let req: Result<Request, Error> = s.try_into();
    assert!(req.is_ok(), "{:?}", req);

    let req = req.unwrap();
    assert_eq!(Method::Get, req.method);
    assert_eq!(Version::V1_1, req.version);
    assert_eq!("/test url", req.uri);
    assert_eq!(headers, req.headers);
}

#[test]
fn read_http_request_with_body() {
    let s = String::from(
        "GET /test%20url HTTP/1.1
Host: localhost
User-Agent: Archive
Content-Length: 20
Accept: */*

This is the body 123",
    );

    let mut headers = Headers::new();
    headers.insert(Headers::HOST, "localhost");
    headers.insert(Headers::USER_AGENT, "Archive");
    headers.insert(Headers::CONTENT_LENGTH, "20");
    headers.insert(Headers::ACCEPT, "*/*");

    let req: Result<Request, Error> = s.try_into();
    assert!(req.is_ok(), "{:?}", req);

    let req = req.unwrap();
    assert_eq!(Method::Get, req.method);
    assert_eq!(Version::V1_1, req.version);
    assert_eq!("/test url", req.uri);
    assert_eq!(headers, req.headers);
    assert_eq!("This is the body 123", req.body);
}

#[test]
fn read_http_body_preserves_newlines() {
    let s = String::from(
        "GET /test%20url HTTP/1.1
Host: localhost
User-Agent: Archive
Content-Length: 22
Accept: */*

This is the body

1234",
    );

    let req: Result<Request, Error> = s.try_into();
    assert!(req.is_ok(), "{:?}", req);

    let req = req.unwrap();
    assert_eq!("This is the body\n\n1234", req.body);
}

#[test]
fn read_http_request_partial() {
    let s = String::from(
        "GET /test%20url HTTP/1.1
Host: localhost
User-Agent: Archive",
    );

    let req: Result<Request, Error> = s.try_into();
    assert_eq!(Err(Error::PartialRequest), req);
}

#[test]
fn read_http_request_partial_body() {
    let s = String::from(
        "GET /test%20url HTTP/1.1
Host: localhost
User-Agent: Archive
Content-Length: 20

Start ...",
    );

    let req: Result<Request, Error> = s.try_into();
    assert_eq!(Err(Error::PartialRequest), req);
}

#[test]
fn read_http_header_without_value() {
    let s = String::from(
        "GET /test%20url HTTP/1.1
Host:
User-Agent: Archive
Accept: */*

",
    );

    let mut headers = Headers::new();
    headers.insert(Headers::HOST, "");
    headers.insert(Headers::USER_AGENT, "Archive");
    headers.insert(Headers::ACCEPT, "*/*");

    let req: Result<Request, Error> = s.try_into();
    assert!(req.is_ok(), "{:?}", req);

    let req = req.unwrap();
    assert_eq!(headers, req.headers);
}

#[test]
fn read_http_header_missing_key() {
    let s = String::from(
        "GET /test%20url HTTP/1.1
: localhost
User-Agent: Archive
Accept: */*

",
    );

    let req: Result<Request, Error> = s.try_into();
    assert!(req.is_err());
    assert_eq!(
        Err(Error::Parse(
            "Invalid header key provided: : localhost".to_string()
        )),
        req
    );
}

#[test]
fn read_http_invalid_request_missing_version() {
    let s = String::from("GET /test%20url");
    let req: Result<Request, Error> = s.try_into();
    assert_eq!(Err(Error::Parse("Missing HTTP version".to_string())), req);
}

#[test]
fn read_http_invalid_request_invalid_version() {
    let s = String::from("GET /test%20url HTTP/1.3");
    let req: Result<Request, Error> = s.try_into();
    assert_eq!(
        Err(Error::Parse("Unknown HTTP version: HTTP/1.3".to_string())),
        req
    );
}

#[test]
fn read_http_invalid_request_missing_uri() {
    let s = String::from("GET ");
    let req: Result<Request, Error> = s.try_into();
    assert_eq!(Err(Error::Parse("Missing HTTP URI".to_string())), req);
}

#[test]
fn read_http_invalid_request_missing_method() {
    let s = String::from("");
    let req: Result<Request, Error> = s.try_into();
    assert_eq!(
        Err(Error::Parse("Missing HTTP request line".to_string())),
        req
    );
}

#[test]
fn read_http_invalid_request_invalid_method() {
    let s = String::from("INVALID /test%20url HTTP/1.2");
    let req: Result<Request, Error> = s.try_into();
    assert_eq!(
        Err(Error::Parse("Unknown HTTP method: INVALID".to_string())),
        req
    );
}

#[test]
fn read_http_blank_request_line() {
    let req: Result<Request, Error> = String::from("   \n\n").try_into();
    assert_eq!(Err(Error::Parse("Missing HTTP method".to_string())), req);
}

#[test]
fn read_http_body_without_length() {
    let req: Result<Request, Error> = String::from("GET / HTTP/1.0\n\nbody").try_into();
    assert_eq!(
        Err(Error::Parse(
            "Parsed a body without a content-length: body".to_string()
        )),
        req
    );
}

#[test]
fn read_http_length_that_is_no_number() {
    for bad in ["abc", "", "+", "-", "-1", "1 2", "99999999999999999999999999", "12x"] {
        let expected = bad.parse::<usize>().unwrap_err().to_string();
        let text = format!("GET / HTTP/1.1\nContent-Length:{}\n\n", bad);
        let req: Result<Request, Error> = text.try_into();
        assert_eq!(Err(Error::Parse(expected)), req, "for {:?}", bad);
    }
}

#[test]
fn read_http_length_with_sign_and_zeros() {
    let req: Result<Request, Error> =
        String::from("GET / HTTP/1.1\nContent-Length: +004\n\nbody").try_into();
    assert_eq!("body", req.unwrap().body);
}

#[test]
fn read_http_length_counts_bytes() {
    let ok: Result<Request, Error> =
        String::from("GET / HTTP/1.1\nContent-Length: 2\n\né").try_into();
    assert_eq!("é", ok.unwrap().body);
    let short: Result<Request, Error> =
        String::from("GET / HTTP/1.1\nContent-Length: 3\n\né").try_into();
    assert_eq!(Err(Error::PartialRequest), short);
}

#[test]
fn read_http_header_value_ends_at_second_colon() {
    let req: Result<Request, Error> =
        String::from("GET / HTTP/1.1\nHost: localhost:8080\n\n").try_into();
    let req = req.unwrap();
    assert_eq!(Some(&"localhost".to_string()), req.headers.get("host"));
}

#[test]
fn read_http_with_carriage_returns() {
    let req: Result<Request, Error> =
        String::from("PUT /a%2Fb HTTP/2.0\r\nHost: x\r\n\r\n").try_into();
    let req = req.unwrap();
    assert_eq!(Method::Put, req.method);
    assert_eq!(Version::V2_0, req.version);
    assert_eq!("/a/b", req.uri);
    assert_eq!("", req.body);
}

#[test]
fn read_http_target_that_is_not_utf8() {
    let req: Result<Request, Error> = String::from("GET /%ff HTTP/1.1\n\n").try_into();
    let expected = format!("{:?}", String::from_utf8(b"/\xff".to_vec()).unwrap_err());
    assert_eq!(Err(Error::Parse(expected)), req);
}

#[test]
fn read_http_body_starts_at_its_first_text() {
    let req: Result<Request, Error> =
        String::from("GET / HTTP/1.1\nContent-Length: 1\n\n\n\na\n\nb").try_into();
    assert_eq!("a\n\nb", req.unwrap().body);
    let req: Result<Request, Error> = String::from("GET / HTTP/1.1\n\n\n\n").try_into();
    assert_eq!("", req.unwrap().body);
}

#[test]
fn read_http_later_header_replaces_earlier() {
    let req: Result<Request, Error> =
        String::from("GET / HTTP/1.1\nHost: a\nhost: b\n\n").try_into();
    let req = req.unwrap();
    assert_eq!(Some(&"b".to_string()), req.headers.get("HOST"));
    assert_eq!("host: b\n", req.headers.to_string());
}

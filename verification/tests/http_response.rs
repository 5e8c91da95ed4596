use mark::http::{Headers, Response, Status, Version};

#[test]
fn create_default() {
    let r = Response::default();
    let actual = Response {
        version: Version::V1_1,
        status: Status::OK,
        headers: Headers::new(),
        body: None,
    };
    assert_eq!(actual, r);
}

#[test]
fn create_200() {
    let mut h = Headers::new();
    h.insert("server", "archive");

    let r = Response::new(
        Status::OK,
        h,
        Some("This is the body text, it has stuff in it. Length 52".into()),
    );

    let actual = Response {
        version: Version::V1_1,
        status: Status::OK,
        headers: {
            let mut h = Headers::new();
            h.insert("server", "archive");
            h.insert("content-type", "text/html");
            h.insert("content-length", "52");
            h
        },
        body: Some("This is the body text, it has stuff in it. Length 52".into()),
    };
    assert_eq!(actual, r);
}

#[test]
fn create_200_with_content_length_and_type() {
    let mut h = Headers::new();
    h.insert("server", "archive");
    h.insert(Headers::CONTENT_LENGTH, "200");
    h.insert(Headers::CONTENT_TYPE, "application/xml");

    let r = Response::new(
        Status::OK,
        h,
        Some("This is the body text, it has stuff in it. Length 52".into()),
    );

    let actual = Response {
        version: Version::V1_1,
        status: Status::OK,
        headers: {
            let mut h = Headers::new();
            h.insert("server", "archive");
            h.insert("content-type", "application/xml");
            h.insert("content-length", "200");
            h
        },
        body: Some("This is the body text, it has stuff in it. Length 52".into()),
    };
    assert_eq!(actual, r);
}

#[test]
fn response_without_body_has_no_length() {
    let r = Response::new(Status::NotFound, Headers::new(), None);
    assert!(!r.headers.contains_key(Headers::CONTENT_LENGTH));
    assert_eq!("", r.body());
    assert_eq!(
        "HTTP/1.1 404 Not Found\r\ncontent-type: text/html\n\r\n\r\n",
        r.to_string()
    );
}

#[test]
fn response_text() {
    let r = Response::new(Status::OK, Headers::new(), Some("héllo".to_string()));
    assert_eq!("héllo", r.body());
    assert_eq!(
        "HTTP/1.1 200 OK\r\ncontent-type: text/html\ncontent-length: 6\n\r\n\r\nhéllo",
        r.to_string()
    );
}

#[test]
fn response_with_empty_body() {
    let r = Response::new(Status::NoContent, Headers::new(), Some(String::new()));
    assert_eq!(Some(&"0".to_string()), r.headers.get("Content-Length"));
}

#[test]
fn response_copies_are_equal() {
    let r = Response::new(Status::Created, Headers::new(), Some("x".to_string()));
    let copy = r.clone();
    assert_eq!(r, copy);
    assert_eq!(r.to_string(), copy.to_string());
}

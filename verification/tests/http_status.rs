use mark::http::Status;

#[test]
fn status_to_string() {
    assert_eq!("204 No Content", Status::NoContent.to_string());
}

#[test]
fn status_texts() {
    assert_eq!("100 Continue", Status::Continue.to_string());
    assert_eq!("200 OK", Status::OK.to_string());
    assert_eq!("404 Not Found", Status::NotFound.to_string());
    assert_eq!("416 Range Not Satisfiable", Status::RangeNotSatisified.to_string());
    assert_eq!(
        "505 HTTP Version Not Supported",
        Status::HttpVersionNotSupported.to_string()
    );
}

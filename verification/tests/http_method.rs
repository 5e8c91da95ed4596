use mark::http::{Error, Method};

type M = Result<Method, Error>;

#[test]
fn parse_method_get() {
    let m: M = "GET".try_into();
    assert_eq!(m, Ok(Method::Get))
}

#[test]
fn parse_method_head() {
    let m: M = "HEAD".try_into();
    assert_eq!(m, Ok(Method::Head))
}

#[test]
fn parse_method_post() {
    let m: M = "POST".try_into();
    assert_eq!(m, Ok(Method::Post))
}

#[test]
fn parse_method_put() {
    let m: M = "PUT".try_into();
    assert_eq!(m, Ok(Method::Put))
}

#[test]
fn parse_method_delete() {
    let m: M = "DELETE".try_into();
    assert_eq!(m, Ok(Method::Delete))
}

#[test]
fn parse_method_connect() {
    let m: M = "CONNECT".try_into();
    assert_eq!(m, Ok(Method::Connect))
}

#[test]
fn parse_method_options() {
    let m: M = "OPTIONS".try_into();
    assert_eq!(m, Ok(Method::Options))
}

#[test]
fn parse_method_trace() {
    let m: M = "TRACE".try_into();
    assert_eq!(m, Ok(Method::Trace))
}

#[test]
fn parse_method_patch() {
    let m: M = "PATCH".try_into();
    assert_eq!(m, Ok(Method::Patch))
}

#[test]
fn parse_method_invalid() {
    let m: M = "INVALID".try_into();
    assert_eq!(
        m,
        Err(Error::Parse("Unknown HTTP method: INVALID".to_string()))
    )
}

#[test]
fn method_to_string() {
    assert_eq!("GET", Method::Get.to_string());
}

#[test]
fn parse_method_is_case_sensitive() {
    let m: M = "get".try_into();
    assert_eq!(m, Err(Error::Parse("Unknown HTTP method: get".to_string())));
}

#[test]
fn every_method_reads_back() {
    let all = [
        Method::Get,
        Method::Head,
        Method::Post,
        Method::Put,
        Method::Delete,
        Method::Connect,
        Method::Options,
        Method::Trace,
        Method::Patch,
    ];
    for m in all {
        let back: M = m.to_string().as_str().try_into();
        assert_eq!(back, Ok(m));
    }
}

#[test]
fn error_texts() {
    assert_eq!("Partial request", Error::PartialRequest.to_string());
    assert_eq!(
        "Invalid method: what",
        Error::Parse("what".to_string()).to_string()
    );
}

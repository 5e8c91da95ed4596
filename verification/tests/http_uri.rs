use mark::http::uri::decode;
use mark::http::Error;

#[test]
fn it_decodes() {
    assert_eq!(
        Ok("MyUrl #%OtherChars".to_string()),
        decode("MyUrl%20%23%25OtherChars")
    );
}

#[test]
fn it_decodes_lone_percent() {
    assert_eq!(Ok("MyUrl%tt".to_string()), decode("MyUrl%tt"));
}

#[test]
fn it_decodes_percent_plus_char() {
    assert_eq!(Ok("MyUrl%az".to_string()), decode("MyUrl%az"));
}

#[test]
fn it_decodes_percent_at_end() {
    assert_eq!(Ok("MyUrl%".to_string()), decode("MyUrl%"));
}

#[test]
fn it_decodes_percent_and_char_at_end() {
    assert_eq!(Ok("MyUrl%a".to_string()), decode("MyUrl%a"));
}

#[test]
fn it_decodes_upper_and_lower_hex() {
    assert_eq!(
        Ok("My Url LOOK".to_string()),
        decode("%4d%79%20%55%72%6c%20%4C%4F%4F%4B")
    );
}

#[test]
fn it_decodes_nothing() {
    assert_eq!(Ok(String::new()), decode(""));
}

#[test]
fn it_decodes_multibyte_text() {
    assert_eq!(Ok("é€".to_string()), decode("%C3%A9%E2%82%AC"));
    assert_eq!(Ok("é".to_string()), decode("é"));
}

#[test]
fn it_keeps_what_it_read_after_a_percent() {
    assert_eq!(Ok("%%41".to_string()), decode("%%41"));
    assert_eq!(Ok("%4%41".to_string()), decode("%4%41"));
}

#[test]
fn it_rejects_bytes_that_are_not_utf8() {
    let expected = format!("{:?}", String::from_utf8(vec![0xffu8]).unwrap_err());
    assert_eq!(Err(Error::Parse(expected)), decode("%ff"));
    assert!(matches!(decode("a%C3"), Err(Error::Parse(_))));
}

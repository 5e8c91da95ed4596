use mark::http::Headers;

#[test]
fn insert_and_get() {
    let mut h = Headers::new();
    assert_eq!(None, h.get(Headers::USER_AGENT));

    h.insert("A Header", "data");
    assert_eq!(Some(&"data".to_string()), h.get("a Header"));
    assert_eq!(None, h.get("Other"));
}

#[test]
fn headers_to_string() {
    let mut h = Headers::new();
    h.insert(Headers::HOST, "localhost");
    h.insert(Headers::ACCEPT, "*/*");
    h.insert(Headers::CONTENT_TYPE, "application/xml");

    // Convert to string, then sort the headers into alphabetical order
    // to make comparison easier.
    let s = h.to_string();
    let mut s: Vec<&str> = s.lines().collect::<Vec<&str>>();
    s.sort();
    let data = s.join("\n");

    assert_eq!(
        "accept: */*
content-type: application/xml
host: localhost",
        data
    );
}

#[test]
fn insert_replaces_the_value_of_a_name() {
    let mut h = Headers::new();
    h.insert("Host", "one");
    h.insert("Accept", "*/*");
    h.insert("HOST", "two");
    assert_eq!(Some(&"two".to_string()), h.get("host"));
    assert_eq!("host: two\naccept: */*\n", h.to_string());
}

#[test]
fn insert_lowers_the_name() {
    let mut h = Headers::new();
    h.insert("ÄB-Ç", "v");
    assert!(h.contains_key("äb-ç"));
    assert!(!h.contains_key("ÄB-Ç"));
    assert_eq!("äb-ç: v\n", h.to_string());
}

#[test]
fn contains_key_takes_the_name_as_it_is() {
    let mut h = Headers::new();
    h.insert("Host", "localhost");
    assert!(h.contains_key("host"));
    assert!(!h.contains_key("Host"));
    assert!(!h.contains_key("accept"));
}

#[test]
fn equal_headers_in_any_order() {
    let mut a = Headers::new();
    a.insert("host", "localhost");
    a.insert("accept", "*/*");
    let mut b = Headers::new();
    b.insert("accept", "*/*");
    b.insert("host", "localhost");
    assert_eq!(a, b);
    b.insert("host", "elsewhere");
    assert_ne!(a, b);
    let mut c = Headers::new();
    c.insert("host", "localhost");
    assert_ne!(a, c);
    assert_ne!(c, a);
}

#[test]
fn empty_headers_write_nothing() {
    assert_eq!("", Headers::new().to_string());
}

#[test]
fn set_and_value_of_take_the_name_as_it_is() {
    let mut h = Headers::new();
    h.set("Host".to_string(), "a".to_string());
    assert_eq!(Some(&"a".to_string()), h.value_of("Host"));
    assert_eq!(None, h.value_of("host"));
    assert_eq!(None, h.get("Host"));
    h.set("Host".to_string(), "b".to_string());
    assert_eq!("Host: b\n", h.to_string());
}

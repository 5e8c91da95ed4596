use mark::marker::parse_marker;
use mark::arena::MarkerClose;
use mark::text::{
    blank, chars_of, drop_prefix, parse_u32, push_decimal, same_text, split_lines, string_of,
    subvec, trimmed,
};
use mark::tree::Marker;

fn chars(s: &str) -> Vec<char> {
    s.chars().collect()
}

fn lines(s: &str) -> Vec<String> {
    split_lines(&chars(s))
        .iter()
        .map(|l| l.iter().collect())
        .collect()
}

#[test]
fn characters_of_a_text() {
    assert_eq!(vec!['a', 'é', '€'], chars_of("aé€"));
    assert_eq!(Vec::<char>::new(), chars_of(""));
}

#[test]
fn same_text_compares_characters() {
    assert!(same_text("", ""));
    assert!(same_text("héllo", "héllo"));
    assert!(!same_text("hello", "hellO"));
    assert!(!same_text("hello", "hell"));
}

#[test]
fn parts_of_a_text() {
    let v = chars("héllo");
    assert_eq!("él", string_of(&v, 1, 3));
    assert_eq!("", string_of(&v, 2, 2));
    assert_eq!(chars("llo"), subvec(&v, 2, 5));
    assert_eq!(chars("llo"), drop_prefix(&v, 2));
    assert_eq!(chars(""), drop_prefix(&v, 5));
    assert_eq!(chars(""), drop_prefix(&v, 9));
}

#[test]
fn lines_end_at_line_feeds() {
    assert_eq!(Vec::<String>::new(), lines(""));
    assert_eq!(vec!["a"], lines("a"));
    assert_eq!(vec!["a"], lines("a\n"));
    assert_eq!(vec!["a", "", "b"], lines("a\n\nb"));
    assert_eq!(vec!["", "a"], lines("\na"));
    assert_eq!(vec![""], lines("\n"));
}

#[test]
fn lines_lose_a_carriage_return_before_the_line_feed() {
    assert_eq!(vec!["a", "b"], lines("a\r\nb\r\n"));
    assert_eq!(vec!["a\r", ""], lines("a\r\r\n\r\n"));
    assert_eq!(vec!["a\rb"], lines("a\rb"));
    assert_eq!(vec!["a", "b\r"], lines("a\nb\r"));
}

#[test]
fn lines_as_the_standard_library_cuts_them() {
    for text in ["", "\n", "\r", "\r\n", "a\r\n\r\nb", "x\ny\n\n", "é\n€\r", "\n\r\n\rz\n"] {
        let expected: Vec<String> = text.lines().map(|l| l.to_string()).collect();
        assert_eq!(expected, lines(text), "for {:?}", text);
    }
}

#[test]
fn trimming_removes_white_space_at_both_ends() {
    assert_eq!(chars("a b"), trimmed(&chars("  a b\t\n")));
    assert_eq!(chars(""), trimmed(&chars(" \t ")));
    assert_eq!(chars(""), trimmed(&chars("")));
    assert_eq!(chars("x"), trimmed(&chars("\u{a0}\u{3000}x\u{2003}")));
    assert_eq!(chars("\u{200b}x"), trimmed(&chars(" \u{200b}x")));
}

#[test]
fn blank_lines() {
    assert!(blank(&chars("")));
    assert!(blank(&chars(" \t\u{a0}")));
    assert!(!blank(&chars(" . ")));
}

#[test]
fn decimal_numbers_are_read() {
    assert_eq!(Some(0), parse_u32(&chars("0")));
    assert_eq!(Some(7), parse_u32(&chars("007")));
    assert_eq!(Some(4294967295), parse_u32(&chars("4294967295")));
    assert_eq!(None, parse_u32(&chars("4294967296")));
    assert_eq!(None, parse_u32(&chars("99999999999999999999")));
    assert_eq!(None, parse_u32(&chars("")));
    assert_eq!(None, parse_u32(&chars("12a")));
    assert_eq!(None, parse_u32(&chars("+1")));
    assert_eq!(None, parse_u32(&chars("١")));
}

#[test]
fn decimal_numbers_are_written() {
    for n in [0u64, 7, 10, 52, 909, 4294967295, u64::MAX] {
        let mut s = String::from("n=");
        push_decimal(&mut s, n);
        assert_eq!(format!("n={}", n), s);
    }
}

#[test]
fn markers_are_classified() {
    assert_eq!((Marker::Bullet, MarkerClose::Plain, 1), parse_marker(&chars("*")));
    assert_eq!((Marker::Dash, MarkerClose::Plain, 1), parse_marker(&chars("-")));
    assert_eq!((Marker::Plus, MarkerClose::Plain, 1), parse_marker(&chars("+")));
    assert_eq!((Marker::Numeric, MarkerClose::Dot, 12), parse_marker(&chars("12.")));
    assert_eq!((Marker::Numeric, MarkerClose::Bracket, 0), parse_marker(&chars("0)")));
    assert_eq!((Marker::LowerAlpha, MarkerClose::Dot, 3), parse_marker(&chars("c.")));
    assert_eq!((Marker::UpperAlpha, MarkerClose::Bracket, 26), parse_marker(&chars("Z)")));
    assert_eq!((Marker::LowerRoman, MarkerClose::Dot, 1), parse_marker(&chars("i.")));
    assert_eq!((Marker::UpperRoman, MarkerClose::Bracket, 1), parse_marker(&chars("I)")));
}

#[test]
fn markers_that_are_no_numbers_start_at_one() {
    assert_eq!((Marker::Numeric, MarkerClose::Dot, 1), parse_marker(&chars("99999999999.")));
    assert_eq!((Marker::Numeric, MarkerClose::Plain, 1), parse_marker(&chars("")));
    assert_eq!((Marker::Numeric, MarkerClose::Plain, 1), parse_marker(&chars(".")));
    assert_eq!((Marker::Numeric, MarkerClose::Plain, 1), parse_marker(&chars("7")));
}

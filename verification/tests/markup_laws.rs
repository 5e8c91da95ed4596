use mark::to_html;

fn count(haystack: &str, needle: &str) -> usize {
    haystack.matches(needle).count()
}

#[test]
fn every_line_is_taken_once() {
    let text = "# one\ntwo\n\n> three\n- four\n  five\n```\nsix\n```\n<div>\nseven\n\n***\neight\n===\n1. nine\nten";
    let html = to_html(text);
    for word in ["one", "two", "three", "four", "five", "six", "seven", "eight", "nine", "ten"] {
        assert_eq!(1, count(&html, word), "{} in {}", word, html);
    }
    assert_eq!(
        "<h1>one</h1>\n<p>two</p>\n<blockquote>\n<p>three</p>\n</blockquote>\n\
         <ul style='list-style-type:circle'>\n<li>\n<p>four\nfive</p>\n</li>\n</ul>\n\
         <pre><code>six\n</code></pre>\n<div>\nseven\n<hr />\n<h1>eight</h1>\n\
         <ol>\n<li>\n<p>nine</p>\n</li>\n</ol>\n<p>ten</p>\n",
        html
    );
}

#[test]
fn every_text_has_its_html() {
    for text in [
        "",
        "\n",
        "*",
        "_",
        "`",
        "\\",
        ">",
        "-",
        "1.",
        "#",
        "```",
        "~~~~",
        "<",
        "<!--",
        "<?",
        "<!A",
        "<![CDATA[",
        "</p",
        "> > > - 1. # x",
        "- - - x",
        "\u{a0}\u{3000}",
        "é *€* _ü_",
        "a\r\n\r\n\rb",
        "  ```\n\n \n  ```",
        "-\n\n  x",
        "1.\n  x",
        "*a\n_b\n`c",
    ] {
        let html = to_html(text);
        assert_eq!(html, to_html(text), "for {:?}", text);
    }
}

#[test]
fn code_text_is_kept_character_by_character() {
    let body = "  a  b\t<c>  &amp; \\* _x_ `y`  ";
    let text = format!("```\n{}\n```", body);
    let expected = body.replace('<', "&lt;").replace('>', "&gt;");
    assert_eq!(
        format!("<pre><code>{}\n</code></pre>\n", expected),
        to_html(&text)
    );
}

#[test]
fn items_in_the_window_of_a_list_join_it() {
    let one = "<ul style='list-style-type:circle'>\n<li>\n<p>a</p>\n</li>\n<li>\n<p>b</p>\n</li>\n<li>\n<p>c</p>\n</li>\n</ul>\n";
    assert_eq!(one, to_html("- a\n- b\n- c"));
    assert_eq!(one, to_html("- a\n -  b\n-   c"));
}

#[test]
fn items_outside_the_window_of_a_list_start_another() {
    assert_eq!(
        "<ul style='list-style-type:circle'>\n<li>\n<p>a</p>\n</li>\n</ul>\n\
         <ul style='list-style-type:circle'>\n<li>\n<p>b</p>\n</li>\n</ul>\n",
        to_html(" - a\n- b")
    );
    assert_eq!(
        "<ol>\n<li>\n<p>a</p>\n</li>\n</ol>\n<ul>\n<li>\n<p>b</p>\n</li>\n</ul>\n\
         <ol start='2'>\n<li>\n<p>c</p>\n</li>\n</ol>\n",
        to_html("1. a\n* b\n2. c")
    );
}

#[test]
fn item_in_its_own_first_line_joins_the_list() {
    assert_eq!(
        "<ul style='list-style-type:circle'>\n<li>\n</li>\n<li>\n<p>b</p>\n</li>\n</ul>\n",
        to_html("- - b")
    );
}

#[test]
fn long_text_is_converted() {
    let mut text = String::new();
    let mut expected = String::new();
    for i in 0..60 {
        text.push_str(&format!("## head {}\n\ntext {}\nmore\n\n", i, i));
        expected.push_str(&format!("<h2>head {}</h2>\n<p>text {}\nmore</p>\n", i, i));
    }
    assert_eq!(expected, to_html(&text));
}

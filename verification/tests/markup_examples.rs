use mark::to_html;

#[test]
fn header_line() {
    assert_eq!("<h1>Hello</h1>\n", to_html("# Hello"));
}

#[test]
fn two_lines_make_one_paragraph() {
    assert_eq!("<p>para one\npara two</p>\n", to_html("para one\npara two"));
}

#[test]
fn quoted_line() {
    assert_eq!(
        "<blockquote>\n<p>quoted</p>\n</blockquote>\n",
        to_html("> quoted")
    );
}

#[test]
fn fenced_code_escapes_angle_brackets() {
    assert_eq!(
        "<pre><code>code &lt;tag&gt;\n</code></pre>\n",
        to_html("```\ncode <tag>\n```")
    );
}

#[test]
fn dash_list_of_two_items() {
    assert_eq!(
        "<ul style='list-style-type:circle'>\n<li>\n<p>a</p>\n</li>\n<li>\n<p>b</p>\n</li>\n</ul>\n",
        to_html("- a\n- b")
    );
}

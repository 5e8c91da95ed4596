use mark::to_html;

#[test]
fn empty_text_has_no_blocks() {
    assert_eq!("", to_html(""));
    assert_eq!("", to_html("\n\n  \n"));
}

#[test]
fn atx_headers_by_level() {
    assert_eq!("<h2>Two</h2>\n", to_html("## Two ##"));
    assert_eq!("<h6>six</h6>\n", to_html("###### six"));
    assert_eq!("<h1></h1>\n", to_html("#"));
    assert_eq!("<h3></h3>\n", to_html("### ###"));
    assert_eq!("<h1>a</h1>\n<h1>b</h1>\n", to_html("# a\n# b"));
}

#[test]
fn seven_hashes_are_text() {
    assert_eq!("<p>####### seven</p>\n", to_html("####### seven"));
}

#[test]
fn header_ends_a_paragraph() {
    assert_eq!("<p>text</p>\n<h1>head</h1>\n", to_html("text\n# head"));
}

#[test]
fn setext_headers() {
    assert_eq!("<h1>Title</h1>\n", to_html("Title\n==="));
    assert_eq!("<h2>Title</h2>\n", to_html("Title\n-----"));
    assert_eq!("<h2>one\ntwo</h2>\n", to_html("one\ntwo\n---"));
}

#[test]
fn underline_without_paragraph() {
    assert_eq!("<hr />\n", to_html("---"));
    assert_eq!("<p>===</p>\n", to_html("==="));
    assert_eq!("<p>a</p>\n<hr />\n", to_html("a\n\n---"));
}

#[test]
fn two_underline_characters_are_text() {
    assert_eq!("<p>Title\n==</p>\n", to_html("Title\n=="));
}

#[test]
fn thematic_break_lines() {
    assert_eq!("<hr />\n", to_html("***"));
    assert_eq!("<hr />\n", to_html(" * * *  "));
    assert_eq!("<hr />\n", to_html("_____"));
    assert_eq!("<p>text</p>\n<hr />\n", to_html("text\n***"));
}

#[test]
fn blank_line_parts_paragraphs() {
    assert_eq!("<p>a</p>\n<p>b</p>\n", to_html("a\n\nb"));
    assert_eq!("<p>a</p>\n<p>b</p>\n", to_html("a\n   \n\n\nb\n"));
}

#[test]
fn paragraph_lines_are_trimmed() {
    assert_eq!("<p>a\nb</p>\n", to_html("  a  \n\tb\t"));
}

#[test]
fn carriage_returns_end_lines() {
    assert_eq!("<p>a\nb</p>\n", to_html("a\r\nb\r\n"));
    assert_eq!("<h1>a</h1>\n<p>b</p>\n", to_html("# a\r\nb"));
}

#[test]
fn quote_of_several_lines() {
    assert_eq!(
        "<blockquote>\n<p>a\nb</p>\n</blockquote>\n",
        to_html("> a\n>b")
    );
    assert_eq!(
        "<blockquote>\n<p>a</p>\n</blockquote>\n<p>b</p>\n",
        to_html("> a\nb")
    );
}

#[test]
fn quote_holds_blocks() {
    assert_eq!(
        "<blockquote>\n<h1>h</h1>\n<p>p</p>\n</blockquote>\n",
        to_html("> # h\n> p")
    );
    assert_eq!(
        "<blockquote>\n<blockquote>\n<p>x</p>\n</blockquote>\n</blockquote>\n",
        to_html(">> x")
    );
}

#[test]
fn quote_ends_a_paragraph() {
    assert_eq!(
        "<p>a</p>\n<blockquote>\n<p>b</p>\n</blockquote>\n",
        to_html("a\n> b")
    );
}

#[test]
fn fenced_code_with_language() {
    assert_eq!(
        "<pre><code class=\"language-rust\">fn main() {}\n</code></pre>\n",
        to_html("```rust\nfn main() {}\n```")
    );
}

#[test]
fn fenced_code_with_tildes() {
    assert_eq!(
        "<pre><code>a\nb\n</code></pre>\n",
        to_html("~~~\na\nb\n~~~")
    );
}

#[test]
fn fenced_code_keeps_inner_white_space() {
    assert_eq!(
        "<pre><code>a   b\t c  \n\n  d\n</code></pre>\n",
        to_html("```\na   b\t c  \n\n  d\n```")
    );
}

#[test]
fn fenced_code_without_end_runs_to_the_last_line() {
    assert_eq!(
        "<pre><code>abc\n# no header\n</code></pre>\n",
        to_html("```\nabc\n# no header")
    );
}

#[test]
fn fenced_code_needs_a_fence_as_long_to_end() {
    assert_eq!(
        "<pre><code>a\n```\nb\n</code></pre>\n",
        to_html("````\na\n```\nb\n`````")
    );
    assert_eq!(
        "<pre><code>a\n~~~\n</code></pre>\n",
        to_html("```\na\n~~~\n```")
    );
}

#[test]
fn fenced_code_strips_the_indent_of_the_fence() {
    assert_eq!(
        "<pre><code>x\n y\nz\n</code></pre>\n",
        to_html("  ```\n  x\n   y\n z\n  ```")
    );
}

#[test]
fn fenced_code_with_short_body_lines() {
    assert_eq!("<pre><code></code></pre>\n", to_html("  ```\n\n  ```"));
    assert_eq!("<pre><code>\n\n</code></pre>\n", to_html("  ```\n \n\n  ```"));
}

#[test]
fn fenced_code_escapes_only_angle_brackets() {
    assert_eq!(
        "<pre><code>&lt;a href=\"x\"&gt; &amp; *b* \\&lt;\n</code></pre>\n",
        to_html("```\n<a href=\"x\"> &amp; *b* \\<\n```")
    );
}

#[test]
fn fence_is_followed_by_blocks() {
    assert_eq!(
        "<pre><code>a\n</code></pre>\n<p>b</p>\n",
        to_html("```\na\n```\nb")
    );
}

#[test]
fn ordered_lists() {
    assert_eq!(
        "<ol>\n<li>\n<p>a</p>\n</li>\n<li>\n<p>b</p>\n</li>\n</ol>\n",
        to_html("1. a\n2. b")
    );
    assert_eq!(
        "<ol start='3'>\n<li>\n<p>a</p>\n</li>\n</ol>\n",
        to_html("3. a")
    );
    assert_eq!(
        "<ol start='123456789'>\n<li>\n<p>a</p>\n</li>\n</ol>\n",
        to_html("123456789) a")
    );
}

#[test]
fn lettered_lists() {
    assert_eq!(
        "<ol type='a'>\n<li>\n<p>x</p>\n</li>\n</ol>\n",
        to_html("a. x")
    );
    assert_eq!(
        "<ol type='A' start='2'>\n<li>\n<p>x</p>\n</li>\n</ol>\n",
        to_html("B) x")
    );
    assert_eq!(
        "<ol type='a' start='26'>\n<li>\n<p>x</p>\n</li>\n</ol>\n",
        to_html("z. x")
    );
}

#[test]
fn roman_lists() {
    assert_eq!(
        "<ol type='i'>\n<li>\n<p>x</p>\n</li>\n</ol>\n",
        to_html("i. x")
    );
    assert_eq!(
        "<ol type='I'>\n<li>\n<p>x</p>\n</li>\n</ol>\n",
        to_html("I) x")
    );
}

#[test]
fn bullet_lists() {
    assert_eq!("<ul>\n<li>\n<p>a</p>\n</li>\n</ul>\n", to_html("* a"));
    assert_eq!(
        "<ul style='list-style-type:square'>\n<li>\n<p>a</p>\n</li>\n</ul>\n",
        to_html("+ a")
    );
}

#[test]
fn other_marker_starts_another_list() {
    assert_eq!(
        "<ul>\n<li>\n<p>a</p>\n</li>\n</ul>\n<ul style='list-style-type:square'>\n<li>\n<p>b</p>\n</li>\n</ul>\n",
        to_html("* a\n+ b")
    );
    assert_eq!(
        "<ol>\n<li>\n<p>a</p>\n</li>\n</ol>\n<ol start='2'>\n<li>\n<p>b</p>\n</li>\n</ol>\n",
        to_html("1. a\n2) b")
    );
}

#[test]
fn items_of_one_list_across_blank_lines() {
    assert_eq!(
        "<ul style='list-style-type:circle'>\n<li>\n<p>a</p>\n</li>\n<li>\n<p>b</p>\n</li>\n</ul>\n",
        to_html("- a\n\n- b")
    );
}

#[test]
fn item_with_lines_that_continue_it() {
    assert_eq!(
        "<ul style='list-style-type:circle'>\n<li>\n<p>a\nmore</p>\n</li>\n</ul>\n",
        to_html("- a\n  more")
    );
    assert_eq!(
        "<ul style='list-style-type:circle'>\n<li>\n<p>a</p>\n</li>\n</ul>\n<p>less</p>\n",
        to_html("- a\n less")
    );
}

#[test]
fn list_in_a_list() {
    assert_eq!(
        "<ul style='list-style-type:circle'>\n<li>\n<p>a</p>\n<ul style='list-style-type:circle'>\n<li>\n<p>b</p>\n</li>\n</ul>\n</li>\n</ul>\n",
        to_html("- a\n  - b")
    );
}

#[test]
fn ordered_item_interrupts_a_paragraph_only_from_one() {
    assert_eq!("<p>text\n2. item</p>\n", to_html("text\n2. item"));
    assert_eq!("<p>text\nb. item</p>\n", to_html("text\nb. item"));
    assert_eq!(
        "<p>text</p>\n<ol>\n<li>\n<p>item</p>\n</li>\n</ol>\n",
        to_html("text\n1. item")
    );
    assert_eq!(
        "<p>text</p>\n<ol type='a'>\n<li>\n<p>item</p>\n</li>\n</ol>\n",
        to_html("text\na. item")
    );
}

#[test]
fn bullet_item_interrupts_a_paragraph() {
    assert_eq!(
        "<p>text</p>\n<ul>\n<li>\n<p>item</p>\n</li>\n</ul>\n",
        to_html("text\n* item")
    );
}

#[test]
fn empty_item_does_not_interrupt_a_paragraph() {
    assert_eq!("<p>text\n+</p>\n", to_html("text\n+"));
    assert_eq!("<ul style='list-style-type:square'>\n<li>\n</li>\n</ul>\n", to_html("+"));
}

#[test]
fn raw_html_element_runs_to_a_blank_line() {
    assert_eq!(
        "<div>\nhello *x*\n</div>\n<p>para</p>\n",
        to_html("<div>\nhello *x*\n</div>\n\npara")
    );
}

#[test]
fn raw_html_element_interrupts_a_paragraph() {
    assert_eq!("<p>text</p>\n<p class=\"x\">\n", to_html("text\n<p class=\"x\">"));
}

#[test]
fn raw_html_script_keeps_its_last_line() {
    assert_eq!(
        "<script>\nx < 1\n</script>\n<p>after</p>\n",
        to_html("<script>\nx < 1\n</script>\nafter")
    );
    assert_eq!("<pre>a</pre>\n", to_html("<pre>a</pre>"));
}

#[test]
fn raw_html_comment_drops_its_last_line() {
    assert_eq!("<!-- a\n<p>after</p>\n", to_html("<!-- a\nb -->\nafter"));
    assert_eq!("<p>after</p>\n", to_html("<!-- a -->\nafter"));
}

#[test]
fn raw_html_instruction_declaration_and_cdata() {
    assert_eq!("<?php\n<p>z</p>\n", to_html("<?php\n?>\nz"));
    assert_eq!("<p>z</p>\n", to_html("<!DOCTYPE html>\nz"));
    assert_eq!("<![CDATA[\nx\n<p>z</p>\n", to_html("<![CDATA[\nx\n]]>\nz"));
}

#[test]
fn raw_html_custom_tag() {
    assert_eq!("<my-tag>\nx\n<p>y</p>\n", to_html("<my-tag>\nx\n\ny"));
    assert_eq!("</my-tag>\n", to_html("</my-tag>"));
    assert_eq!("<p>text\n<my-tag></p>\n", to_html("text\n<my-tag>"));
}

#[test]
fn raw_html_without_end_runs_to_the_last_line() {
    assert_eq!("<div>\na\n", to_html("<div>\na"));
    assert_eq!("<!--\na\n", to_html("<!--\na"));
}

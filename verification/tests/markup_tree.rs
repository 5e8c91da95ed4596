use mark::html::Html;
use mark::parser::Parser;
use mark::to_ast;
use mark::tree::{Block, Doc, Inline, Marker};

fn text(s: &str) -> Block {
    Block::Text(s.to_string())
}

#[test]
fn tree_of_a_header() {
    assert_eq!(
        Doc::new(vec![Block::Header(1, vec![text("Hi")])]),
        to_ast("# Hi")
    );
}

#[test]
fn tree_of_a_paragraph_with_a_span() {
    assert_eq!(
        Doc::new(vec![Block::Paragraph(vec![
            text("a "),
            Block::Inline(Inline::Strong, vec![text("b")]),
            text("\n"),
            text("c"),
        ])]),
        to_ast("a *b*\nc")
    );
}

#[test]
fn tree_of_a_list() {
    assert_eq!(
        Doc::new(vec![Block::List(
            Marker::Numeric,
            7,
            vec![
                Block::ListElement(vec![Block::Paragraph(vec![text("a")])]),
                Block::ListElement(vec![Block::Paragraph(vec![text("b")])]),
            ]
        )]),
        to_ast("7. a\n8. b")
    );
}

#[test]
fn tree_of_code_and_break() {
    assert_eq!(
        Doc::new(vec![
            Block::Code(
                Some("c".to_string()),
                vec![text("a"), text("&lt;"), text("b"), text("\n"), text("d")]
            ),
            Block::ThematicBreak,
        ]),
        to_ast("``` c\na<b\nd\n```\n***")
    );
}

#[test]
fn tree_of_raw_html_and_quote() {
    assert_eq!(
        Doc::new(vec![
            Block::RawHtml(vec![text("<hr>"), text("\n")]),
            Block::Blockquote(vec![Block::Paragraph(vec![text("q")])]),
        ]),
        to_ast("<hr>\n\n> q")
    );
}

#[test]
fn rendering_a_tree_made_by_hand() {
    let doc = Doc::new(vec![
        Block::Header(3, vec![text("t")]),
        Block::List(
            Marker::UpperRoman,
            4,
            vec![Block::ListElement(vec![Block::Inline(
                Inline::Code,
                vec![text("x")],
            )])],
        ),
        Block::Code(None, vec![]),
        Block::RawHtml(vec![text("<b>")]),
    ]);
    assert_eq!(
        "<h3>t</h3>\n<ol type='I' start='4'>\n<li>\n<code>x</code></li>\n</ol>\n<pre><code></code></pre>\n<b>",
        doc.to_string()
    );
    assert_eq!(doc.to_string(), Html::new(&doc).to_string());
    assert_eq!(4, doc.blocks().len());
    assert_eq!("<h3>t</h3>\n", doc.blocks()[0].to_string());
}

#[test]
fn parser_gives_the_tree_of_its_text() {
    let mut p = Parser::new("a\n\n> b");
    let doc = p.parse();
    assert_eq!(to_ast("a\n\n> b"), doc);
    assert_eq!("<p>a</p>\n<blockquote>\n<p>b</p>\n</blockquote>\n", doc.to_string());
}

#[test]
fn parsing_again_gives_the_same_tree() {
    let mut p = Parser::new("# a\n- b");
    let first = p.parse();
    let second = p.parse();
    assert_eq!("<h1>a</h1>\n<ul style='list-style-type:circle'>\n<li>\n<p>b</p>\n</li>\n</ul>\n", first.to_string());
    assert_eq!(first, second);
}

use mark::arena::{Arena, Kind, ListData, MarkerClose};
use mark::blocks::{
    add_code_line, fence_end, fence_parts, header_parts, setext_of, try_fenced_code, try_header,
    try_raw_html, try_setext_header, try_thematic_break,
};
use mark::inline::parse_inlines;
use mark::materialize::{build_doc, to_block};
use mark::parser::{item_goes_on, item_parts, parse_lines, quote_width, try_blockquote, try_list};
use mark::pattern::{captures, is_match, Groups, HEADER, LIST_ITEM, QUOTE, THEMATIC};
use mark::tree::{Block, Doc, Inline, Marker};

fn chars(s: &str) -> Vec<char> {
    s.chars().collect()
}

fn groups(texts: &[Option<&str>]) -> Groups {
    Groups::new(texts.iter().map(|t| t.map(chars)).collect())
}

fn lines(texts: &[&str]) -> Vec<Vec<char>> {
    texts.iter().map(|t| chars(t)).collect()
}

fn text(s: &str) -> Block {
    Block::Text(s.to_string())
}

#[test]
fn patterns_match_lines() {
    assert!(is_match(THEMATIC, &chars("- - -")));
    assert!(!is_match(THEMATIC, &chars("- -")));
    assert!(!is_match("(", &chars("(")));
    assert!(captures("(", &chars("(")).is_none());
    assert!(captures(QUOTE, &chars("no quote")).is_none());
}

#[test]
fn groups_of_a_match() {
    let g = captures(HEADER, &chars("## Two ##")).unwrap();
    assert_eq!(chars("## Two ##"), g.get(0));
    assert_eq!(chars("##"), g.get(1));
    assert_eq!(chars("Two"), g.get(3));
    assert!(g.has(4));
    assert!(!g.has(5));
    assert_eq!(chars(""), g.get(5));
    let g = captures(LIST_ITEM, &chars(" 1.")).unwrap();
    assert_eq!(chars(" 1."), g.get(1));
    assert!(!g.has(2));
    assert_eq!(chars(""), g.get(2));
    let g = captures(QUOTE, &chars(" >  x")).unwrap();
    assert_eq!(chars(" > "), g.get(1));
}

#[test]
fn setext_level_from_groups() {
    assert_eq!(2, setext_of(&groups(&[Some("---"), Some("---")])));
    assert_eq!(1, setext_of(&groups(&[Some("==="), Some("===")])));
    assert_eq!(2, setext_of(&groups(&[Some(" - "), Some(" - ")])));
    assert_eq!(1, setext_of(&groups(&[])));
}

#[test]
fn header_from_groups() {
    assert_eq!(
        Some((2, chars("Two"))),
        header_parts(&groups(&[Some("## Two"), Some("##"), Some(" Two"), Some("Two")]))
    );
    assert_eq!(
        Some((3, chars(""))),
        header_parts(&groups(&[Some("### ###"), Some("###"), Some(" ###"), Some("###")]))
    );
    assert_eq!(
        Some((1, chars("a#"))),
        header_parts(&groups(&[Some("# ##a#"), Some("#"), Some(" ##a#"), Some("##a#")]))
    );
    assert_eq!(
        Some((6, chars(""))),
        header_parts(&groups(&[Some("######"), Some("######"), None, None]))
    );
}

#[test]
fn header_level_is_one_to_six() {
    assert_eq!(None, header_parts(&groups(&[Some(" x"), Some(""), Some(" x"), Some("x")])));
    assert_eq!(
        None,
        header_parts(&groups(&[Some("#######"), Some("#######"), None, None]))
    );
    assert_eq!(None, header_parts(&groups(&[])));
}

#[test]
fn fence_from_groups() {
    let g = groups(&[Some("  ```rust x"), Some("  "), Some("```"), Some("rust"), Some(" x")]);
    let f = fence_parts(&g, false).unwrap();
    assert_eq!(2, f.indent);
    assert_eq!(chars("```"), f.marker);
    assert_eq!(Some(chars("rust")), f.lang);
    assert!(fence_parts(&g, true).is_none());

    let g = groups(&[Some("~~~"), Some(""), Some("~~~"), Some(""), Some("")]);
    let f = fence_parts(&g, false).unwrap();
    assert_eq!(0, f.indent);
    assert_eq!(None, f.lang);

    let g = groups(&[Some("``` a`"), Some(""), Some("```"), Some("a`"), Some("")]);
    assert!(fence_parts(&g, false).is_none());
    let g = groups(&[Some("``` a `"), Some(""), Some("```"), Some("a"), Some(" `")]);
    assert!(fence_parts(&g, false).is_none());
    let g = groups(&[Some("~~~ a `"), Some(""), Some("~~~"), Some("a"), Some(" `")]);
    assert!(fence_parts(&g, false).is_some());
}

#[test]
fn fence_end_from_groups() {
    assert!(fence_end(&groups(&[Some("````"), Some("````")]), &chars("```")));
    assert!(fence_end(&groups(&[Some("```"), Some("```")]), &chars("```")));
    assert!(!fence_end(&groups(&[Some("```"), Some("```")]), &chars("````")));
    assert!(!fence_end(&groups(&[Some("~~~"), Some("~~~")]), &chars("```")));
}

#[test]
fn quote_prefix_from_groups() {
    assert_eq!(Some(2), quote_width(&groups(&[Some("> "), Some("> ")]), 5));
    assert_eq!(Some(1), quote_width(&groups(&[Some(">"), Some(">")]), 1));
    assert_eq!(None, quote_width(&groups(&[Some(""), Some("")]), 5));
    assert_eq!(None, quote_width(&groups(&[Some("> "), Some("> ")]), 1));
}

#[test]
fn item_from_groups() {
    let g = groups(&[Some(" 2)  text"), Some(" 2)"), Some("  "), Some("text")]);
    let item = item_parts(&g, 9, false).unwrap();
    assert_eq!(
        ListData {
            dist_to_marker: 3,
            dist_after_marker: 2,
            marker: Marker::Numeric,
            close: MarkerClose::Bracket,
            start_value: 2,
        },
        item.data
    );
    assert_eq!(5, item.indent);
    assert!(!item.blank);
    assert!(item_parts(&g, 9, true).is_none());
    assert!(item_parts(&g, 4, false).is_none());

    let g = groups(&[Some("- "), Some("-"), Some(" "), Some("")]);
    let item = item_parts(&g, 2, false).unwrap();
    assert_eq!(1, item.indent);
    assert!(item.blank);
    assert!(item_parts(&g, 2, true).is_none());

    let g = groups(&[Some("1. x"), Some("1."), Some(" "), Some("x")]);
    assert!(item_parts(&g, 4, true).is_some());
    let g = groups(&[Some("* x"), Some("*"), Some(" "), Some("x")]);
    assert!(item_parts(&g, 3, true).is_some());
    let g = groups(&[Some("x"), Some(""), None, None]);
    assert!(item_parts(&g, 1, false).is_none());
}

#[test]
fn lines_that_continue_an_item() {
    let g = groups(&[Some("- a"), Some("-"), Some(" "), Some("a")]);
    let item = item_parts(&g, 3, false).unwrap();
    assert!(item_goes_on(&item, 2, 5, false, true));
    assert!(item_goes_on(&item, 3, 5, false, false));
    assert!(!item_goes_on(&item, 1, 5, false, true));
    assert!(item_goes_on(&item, 1, 1, true, true));
    assert!(item_goes_on(&item, 0, 0, true, true));

    let g = groups(&[Some("-"), Some("-"), None, None]);
    let empty = item_parts(&g, 1, false).unwrap();
    assert!(!item_goes_on(&empty, 0, 0, true, true));
    assert!(item_goes_on(&empty, 0, 0, true, false));
    assert!(item_goes_on(&empty, 1, 2, false, true));
}

#[test]
fn arena_starts_with_the_root() {
    let a = Arena::new();
    assert_eq!(1, a.len());
    assert_eq!(0, a.find_open_node(0));
    assert!(a.is_open(0));
    assert!(matches!(a.kind(0), Kind::Doc));
    assert!(a.children(0).is_empty());
    assert_eq!(Doc::new(vec![]), build_doc(&a));
}

#[test]
fn arena_adds_under_the_open_node() {
    let mut a = Arena::new();
    let quote = a.add_node(Kind::Blockquote);
    let para = a.add_node(Kind::Paragraph);
    assert_eq!((1, 2), (quote, para));
    assert_eq!(&vec![1], a.children(0));
    assert_eq!(&vec![2], a.children(1));
    assert_eq!(2, a.find_open_node(0));
    assert!(a.is_paragraph(2));

    a.add_text_node("t".to_string());
    assert_eq!(&vec![3], a.children(2));
    assert!(!a.is_open(3));
    assert_eq!(2, a.find_open_node(0));

    let rule = a.add_node(Kind::ThematicBreak);
    assert!(!a.is_open(2));
    assert_eq!(&vec![2, 4], a.children(1));
    assert_eq!(4, a.find_open_node(0));
    a.close_node(rule);
    assert_eq!(1, a.find_open_node(0));
}

#[test]
fn arena_parent_for_a_kind() {
    let mut a = Arena::new();
    a.add_node(Kind::ListElement);
    a.add_node(Kind::Header(1));
    a.add_node(Kind::Inline(Inline::Strong));
    assert_eq!(3, a.get_open_parent_for(&Kind::Text("x".to_string())));
    assert_eq!(3, a.get_open_parent_for(&Kind::Inline(Inline::Code)));
    assert!(a.is_open(3));
    assert_eq!(2, a.get_open_parent_for(&Kind::Paragraph));
    assert!(!a.is_open(3));
    assert!(a.is_open(2));
    assert_eq!(1, a.get_open_parent_for(&Kind::RawHtml));
    assert!(!a.is_open(2));
    assert_eq!(1, a.get_open_parent_for(&Kind::Code(None)));
    assert!(a.is_open(1));
}

#[test]
fn arena_never_closes_the_root() {
    let mut a = Arena::new();
    a.close_open_node();
    assert!(a.is_open(0));
    a.add_node(Kind::Paragraph);
    a.close_open_node();
    assert!(!a.is_open(1));
    a.close_open_node();
    assert!(a.is_open(0));
}

#[test]
fn arena_finds_the_list_of_an_item() {
    let dash = ListData {
        dist_to_marker: 1,
        dist_after_marker: 1,
        marker: Marker::Dash,
        close: MarkerClose::Plain,
        start_value: 1,
    };
    let mut a = Arena::new();
    assert_eq!(None, a.find_parent_list(0, &dash));
    let list = a.add_node(Kind::List(dash));
    assert_eq!(Some(list), a.find_parent_list(0, &dash));
    assert_eq!(None, a.find_parent_list(list, &dash));

    let wider = ListData { dist_to_marker: 2, dist_after_marker: 3, ..dash };
    assert_eq!(Some(list), a.find_parent_list(0, &wider));
    let bare = ListData { dist_to_marker: 2, dist_after_marker: 0, ..dash };
    assert_eq!(Some(list), a.find_parent_list(0, &bare));
    let far = ListData { dist_to_marker: 3, ..dash };
    assert_eq!(None, a.find_parent_list(0, &far));
    let near = ListData { dist_to_marker: 0, ..dash };
    assert_eq!(None, a.find_parent_list(0, &near));
    let plus = ListData { marker: Marker::Plus, ..dash };
    assert_eq!(None, a.find_parent_list(0, &plus));
    let dotted = ListData { close: MarkerClose::Dot, ..dash };
    assert_eq!(None, a.find_parent_list(0, &dotted));

    let item = a.add_node_to_parent(list, Kind::ListElement);
    let inner = a.add_node(Kind::List(wider));
    assert_eq!(Some(inner), a.find_parent_list(0, &wider));
    assert_eq!(Some(list), a.find_parent_list(0, &dash));
    a.close_node(item);
    assert_eq!(Some(list), a.find_parent_list(0, &wider));
    a.close_node(list);
    assert_eq!(None, a.find_parent_list(0, &dash));
}

#[test]
fn arena_retags_a_node() {
    let mut a = Arena::new();
    let p = a.add_node(Kind::Paragraph);
    a.add_text_node("t".to_string());
    a.retag(p, Kind::Header(2));
    assert!(matches!(a.kind(p), Kind::Header(2)));
    assert_eq!(Block::Header(2, vec![text("t")]), to_block(&a, p));
}

#[test]
fn matchers_decline_without_a_trace() {
    let mut a = Arena::new();
    let l = lines(&["plain"]);
    assert!(!try_setext_header(&mut a, &chars("---")));
    assert!(!try_thematic_break(&mut a, &l[0]));
    assert!(!try_header(&mut a, &l[0]));
    assert_eq!(None, try_raw_html(&mut a, &l, 0));
    assert_eq!(None, try_fenced_code(&mut a, &l, 0));
    assert_eq!(None, try_blockquote(&mut a, &l, 0));
    assert_eq!(None, try_list(&mut a, &l, 0));
    assert_eq!(1, a.len());
}

#[test]
fn matchers_count_their_lines() {
    let l = lines(&["x", "<div>", "a", "", "```", "b", "```", "> c", "> d", "- e", "  f", "g"]);
    let mut a = Arena::new();
    assert_eq!(Some(3), try_raw_html(&mut a, &l, 1));
    assert_eq!(Some(3), try_fenced_code(&mut a, &l, 4));
    assert_eq!(Some(2), try_blockquote(&mut a, &l, 7));
    assert_eq!(Some(2), try_list(&mut a, &l, 9));
    assert_eq!(None, try_list(&mut a, &l, 11));
    assert_eq!(
        "<div>\na\n<pre><code>b\n</code></pre>\n<blockquote>\n<p>c\nd</p>\n</blockquote>\n\
         <ul style='list-style-type:circle'>\n<li>\n<p>e\nf</p>\n</li>\n</ul>\n",
        build_doc(&a).to_string()
    );
}

#[test]
fn setext_turns_the_open_paragraph_into_a_header() {
    let mut a = Arena::new();
    parse_lines(&mut a, &lines(&["title"]));
    assert!(try_setext_header(&mut a, &chars("====")));
    assert!(!a.is_open(1));
    assert!(!try_setext_header(&mut a, &chars("====")));
    assert_eq!("<h1>title</h1>\n", build_doc(&a).to_string());
}

#[test]
fn code_line_is_cut_at_angle_brackets() {
    let mut a = Arena::new();
    a.add_node(Kind::Code(None));
    add_code_line(&mut a, &chars("  a<b>>"), 1);
    assert_eq!(
        Doc::new(vec![Block::Code(
            None,
            vec![text(" a"), text("&lt;"), text("b"), text("&gt;"), text(""), text("&gt;")]
        )]),
        build_doc(&a)
    );
}

#[test]
fn code_line_loses_no_more_than_its_indent() {
    for (line, indent, expected) in [
        ("    x", 2, "  x"),
        (" x", 4, "x"),
        ("x  ", 4, "x  "),
        ("   ", 2, " "),
        (" ", 3, ""),
        ("", 3, ""),
        ("\t\tx", 1, "\tx"),
    ] {
        let mut a = Arena::new();
        a.add_node(Kind::Code(None));
        add_code_line(&mut a, &chars(line), indent);
        let kids = if expected.is_empty() { vec![] } else { vec![text(expected)] };
        assert_eq!(Doc::new(vec![Block::Code(None, kids)]), build_doc(&a), "for {:?}", line);
    }
}

#[test]
fn inline_scanner_adds_to_the_open_node() {
    let mut a = Arena::new();
    a.add_node(Kind::Paragraph);
    parse_inlines(&mut a, &chars("a _b_ \\& c"));
    assert_eq!(
        Doc::new(vec![Block::Paragraph(vec![
            text("a "),
            Block::Inline(Inline::Emphasis, vec![text("b")]),
            text(" "),
            text("&amp;"),
            text(" c"),
        ])]),
        build_doc(&a)
    );
}

#[test]
fn stray_closing_marker_closes_the_open_node() {
    let mut a = Arena::new();
    a.add_node(Kind::Paragraph);
    parse_inlines(&mut a, &chars("a* b"));
    assert!(!a.is_open(1));
    assert_eq!(
        Doc::new(vec![Block::Paragraph(vec![text("a")]), text(" b")]),
        build_doc(&a)
    );
}

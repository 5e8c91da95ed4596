//! The inline scanner: one line of text becomes text nodes and spans.

use vstd::prelude::*;
use vstd::string::*;
use crate::arena::{
    added, closed_deepest, grows, lemma_grows_on, lemma_grows_same, with_text, Arena, Kind,
    KindModel, Nodes,
};
use crate::text::{is_space, string_of};
use crate::tree::Inline;

verus! {

broadcast use {lemma_grows_on, lemma_grows_same};

/// The span that a marker character stands for.
pub open spec fn span_of(ch: char) -> Option<Inline> {
    if ch == '_' {
        Some(Inline::Emphasis)
    } else if ch == '*' {
        Some(Inline::Strong)
    } else if ch == '`' {
        Some(Inline::Code)
    } else {
        None
    }
}

/// The character at place `i` of a line, if the line reaches that far.
pub open spec fn neighbour(line: Seq<char>, i: int) -> Option<char> {
    if 0 <= i < line.len() {
        Some(line[i])
    } else {
        None
    }
}

/// A marker opens a span when nothing or white space stands before it and
/// something other than white space follows it.
pub open spec fn opens_span(left: Option<char>, right: Option<char>) -> bool {
    &&& match left {
        Some(l) => is_space(l),
        None => true,
    }
    &&& match right {
        Some(r) => !is_space(r),
        None => false,
    }
}

/// A marker closes a span when something other than white space stands
/// before it, which for `_` and `*` must not be the marker itself, and
/// nothing or white space follows it.
pub open spec fn closes_span(ch: char, left: Option<char>, right: Option<char>) -> bool {
    &&& match left {
        Some(l) => !is_space(l) && (ch == '`' || l != ch),
        None => false,
    }
    &&& match right {
        Some(r) => is_space(r),
        None => true,
    }
}

/// The punctuation that a backslash makes literal.
pub open spec fn is_escapable(c: char) -> bool {
    c == '#' || c == '*' || c == '!' || c == '$' || c == '%' || c == '\'' || c == '(' || c == ')'
        || c == '+' || c == ',' || c == '-' || c == '.' || c == '/' || c == ':' || c == ';' || c
        == '=' || c == '?' || c == '@' || c == '[' || c == '\\' || c == ']' || c == '^' || c == '_'
        || c == '`' || c == '{' || c == '|' || c == '}' || c == '~'
}

/// The HTML entity that replaces a backslash and the character after it.
pub open spec fn entity_of(c: char) -> Option<Seq<char>> {
    if c == '"' {
        Some("&quot;"@)
    } else if c == '&' {
        Some("&amp;"@)
    } else if c == '>' {
        Some("&gt;"@)
    } else if c == '<' {
        Some("&lt;"@)
    } else {
        None
    }
}

/// The arena after a line has been scanned from place `idx` on, the text
/// since place `start` being still pending.
///
/// A marker that opens flushes the pending text and opens its span; one that
/// closes flushes it and closes the deepest open node; any other marker is
/// text. A backslash before escapable punctuation is dropped; before a
/// character with an entity, both are replaced by the entity; any other
/// backslash is text. At the end of the line the pending text is flushed.
pub open spec fn scan(a: Nodes, line: Seq<char>, idx: int, start: int) -> Nodes
    decreases line.len() - idx,
{
    if idx < 0 || idx >= line.len() {
        if start < idx && 0 <= start <= line.len() {
            with_text(a, line.subrange(start, line.len() as int))
        } else {
            a
        }
    } else {
        let ch = line[idx];
        let left = neighbour(line, idx - 1);
        let right = neighbour(line, idx + 1);
        let pending = line.subrange(start, idx);
        match span_of(ch) {
            Some(tag) => if opens_span(left, right) {
                scan(added(with_text(a, pending), KindModel::Inline(tag)), line, idx + 1, idx + 1)
            } else if closes_span(ch, left, right) {
                scan(closed_deepest(with_text(a, pending)), line, idx + 1, idx + 1)
            } else {
                scan(a, line, idx + 1, start)
            },
            None => match right {
                Some(next) if ch == '\\' => if is_escapable(next) {
                    scan(with_text(a, pending), line, idx + 2, idx + 1)
                } else {
                    match entity_of(next) {
                        Some(entity) => scan(
                            with_text(with_text(a, pending), entity),
                            line,
                            idx + 2,
                            idx + 2,
                        ),
                        None => scan(a, line, idx + 1, start),
                    }
                },
                _ => scan(a, line, idx + 1, start),
            },
        }
    }
}

/// The arena after a whole line has been scanned.
pub open spec fn scanned(a: Nodes, line: Seq<char>) -> Nodes {
    scan(a, line, 0, 0)
}

fn is_inline_open(left: Option<char>, right: Option<char>) -> (b: bool)
    ensures
        b == opens_span(left, right),
{
    let left_ok = match left {
        Some(l) => l.is_whitespace(),
        None => true,
    };
    let right_ok = match right {
        Some(r) => !r.is_whitespace(),
        None => false,
    };
    left_ok && right_ok
}

fn is_inline_close(ch: char, left: Option<char>, right: Option<char>) -> (b: bool)
    ensures
        b == closes_span(ch, left, right),
{
    let left_ok = match left {
        Some(l) => !l.is_whitespace() && (ch == '`' || l != ch),
        None => false,
    };
    let right_ok = match right {
        Some(r) => r.is_whitespace(),
        None => true,
    };
    left_ok && right_ok
}

fn escapable(c: char) -> (b: bool)
    ensures
        b == is_escapable(c),
{
    c == '#' || c == '*' || c == '!' || c == '$' || c == '%' || c == '\'' || c == '(' || c == ')'
        || c == '+' || c == ',' || c == '-' || c == '.' || c == '/' || c == ':' || c == ';' || c
        == '=' || c == '?' || c == '@' || c == '[' || c == '\\' || c == ']' || c == '^' || c == '_'
        || c == '`' || c == '{' || c == '|' || c == '}' || c == '~'
}

fn entity(c: char) -> (e: Option<String>)
    ensures
        match e {
            Some(s) => entity_of(c) == Some(s@),
            None => entity_of(c) is None,
        },
{
    if c == '"' {
        Some(String::from_str("&quot;"))
    } else if c == '&' {
        Some(String::from_str("&amp;"))
    } else if c == '>' {
        Some(String::from_str("&gt;"))
    } else if c == '<' {
        Some(String::from_str("&lt;"))
    } else {
        None
    }
}

fn span(ch: char) -> (tag: Option<Inline>)
    ensures
        tag == span_of(ch),
{
    if ch == '_' {
        Some(Inline::Emphasis)
    } else if ch == '*' {
        Some(Inline::Strong)
    } else if ch == '`' {
        Some(Inline::Code)
    } else {
        None
    }
}

/// Scans one line for spans and escapes and adds what it finds to the
/// arena.
pub fn parse_inlines(arena: &mut Arena, line: &Vec<char>)
    requires
        old(arena).wf(),
    ensures
        final(arena)@ == scanned(old(arena)@, line@),
        final(arena).wf(),
        grows(old(arena)@, final(arena)@),
{
    let count: usize = line.len();
    let mut start: usize = 0;
    let mut idx: usize = 0;
    while idx < count
        invariant
            start <= idx <= count == line.len(),
            arena.wf(),
            grows(old(arena)@, arena@),
            scan(arena@, line@, idx as int, start as int) == scanned(old(arena)@, line@),
        decreases count - idx,
    {
        let ch: char = line[idx];
        let left: Option<char> = if idx > 0 {
            Some(line[idx - 1])
        } else {
            None
        };
        let right: Option<char> = if idx + 1 < count {
            Some(line[idx + 1])
        } else {
            None
        };
        match span(ch) {
            Some(tag) => {
                if is_inline_open(left, right) {
                    arena.add_text_node(string_of(line, start, idx));
                    arena.add_node(Kind::Inline(tag));
                    start = idx + 1;
                } else if is_inline_close(ch, left, right) {
                    arena.add_text_node(string_of(line, start, idx));
                    arena.close_open_node();
                    start = idx + 1;
                }
            },
            None => {
                if ch == '\\' {
                    match right {
                        Some(next) => {
                            if escapable(next) {
                                arena.add_text_node(string_of(line, start, idx));
                                start = idx + 1;
                                idx += 1;
                            } else {
                                match entity(next) {
                                    Some(e) => {
                                        arena.add_text_node(string_of(line, start, idx));
                                        arena.add_text_node(e);
                                        start = idx + 2;
                                        idx += 1;
                                    },
                                    None => {},
                                }
                            }
                        },
                        None => {},
                    }
                }
            },
        }
        idx += 1;
    }
    if idx > start {
        arena.add_text_node(string_of(line, start, count));
    }
}

} // verus!

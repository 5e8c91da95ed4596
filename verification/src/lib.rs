//! A small Markdown-like markup engine: text in, block tree and HTML out.
//!
//! The format is close to Markdown without following it strictly: indented
//! code blocks are not supported, and strong and emphasis are told apart by
//! the marker character, not by the number of markers.

use vstd::prelude::*;

pub mod arena;
pub mod blocks;
pub mod fidelity;
pub mod html;
pub mod http;
pub mod inline;
pub mod marker;
pub mod materialize;
pub mod parser;
pub mod pattern;
pub mod text;
pub mod tree;

verus! {

/// The document tree of a text.
pub fn to_ast(buf: &str) -> (doc: tree::Doc)
    ensures
        doc@ == parser::document(buf@),
{
    let mut p = parser::Parser::new(buf);
    p.parse()
}

/// The HTML of a text: the blocks of its document, rendered one after the
/// other.
pub fn to_html(buf: &str) -> (html: String)
    ensures
        html@ == tree::render_all(parser::document(buf@)),
{
    let mut p = parser::Parser::new(buf);
    let doc = p.parse();
    doc.to_string()
}

} // verus!

//! The document tree that parsing produces, and its rendering as HTML.

use vstd::prelude::*;
use vstd::string::*;
use crate::text::{decimal, push_decimal};

verus! {

/// The marker that introduces the items of a list.
#[derive(Copy, Clone, Debug, PartialEq, Eq, Structural)]
pub enum Marker {
    Bullet,
    Dash,
    Plus,
    UpperAlpha,
    LowerAlpha,
    UpperRoman,
    LowerRoman,
    Numeric,
}

/// The inline spans.
#[derive(Copy, Clone, Debug, PartialEq, Eq, Structural)]
pub enum Inline {
    Emphasis,
    Strong,
    Code,
}

/// A node of the finished document.
#[derive(Debug, PartialEq, Eq)]
pub enum Block {
    Blockquote(Vec<Block>),
    Code(Option<String>, Vec<Block>),
    Header(usize, Vec<Block>),
    List(Marker, u32, Vec<Block>),
    ListElement(Vec<Block>),
    Paragraph(Vec<Block>),
    ThematicBreak,
    RawHtml(Vec<Block>),
    Text(String),
    Inline(Inline, Vec<Block>),
}

/// What a `Block` stands for in contracts.
pub enum BlockModel {
    Blockquote(Seq<BlockModel>),
    Code(Option<Seq<char>>, Seq<BlockModel>),
    Header(usize, Seq<BlockModel>),
    List(Marker, u32, Seq<BlockModel>),
    ListElement(Seq<BlockModel>),
    Paragraph(Seq<BlockModel>),
    ThematicBreak,
    RawHtml(Seq<BlockModel>),
    Text(Seq<char>),
    Inline(Inline, Seq<BlockModel>),
}

pub open spec fn model_of(b: Block) -> BlockModel
    decreases b,
{
    match b {
        Block::Blockquote(bs) => BlockModel::Blockquote(models_of(bs@)),
        Block::Code(lang, bs) => BlockModel::Code(
            match lang {
                Some(l) => Some(l@),
                None => None,
            },
            models_of(bs@),
        ),
        Block::Header(level, bs) => BlockModel::Header(level, models_of(bs@)),
        Block::List(marker, start, bs) => BlockModel::List(marker, start, models_of(bs@)),
        Block::ListElement(bs) => BlockModel::ListElement(models_of(bs@)),
        Block::Paragraph(bs) => BlockModel::Paragraph(models_of(bs@)),
        Block::ThematicBreak => BlockModel::ThematicBreak,
        Block::RawHtml(bs) => BlockModel::RawHtml(models_of(bs@)),
        Block::Text(s) => BlockModel::Text(s@),
        Block::Inline(tag, bs) => BlockModel::Inline(tag, models_of(bs@)),
    }
}

pub open spec fn models_of(bs: Seq<Block>) -> Seq<BlockModel>
    decreases bs,
{
    if bs.len() == 0 {
        Seq::empty()
    } else {
        models_of(bs.drop_last()).push(model_of(bs.last()))
    }
}

/// The element name of a list: unordered for the bullet markers, ordered
/// for the counting ones.
pub open spec fn list_tag(marker: Marker) -> Seq<char> {
    match marker {
        Marker::Bullet | Marker::Dash | Marker::Plus => "ul"@,
        _ => "ol"@,
    }
}

/// The attribute by which a list shows its marker, with its leading space;
/// empty for plain bullets and plain numbers.
pub open spec fn list_attr(marker: Marker) -> Seq<char> {
    match marker {
        Marker::Bullet => Seq::empty(),
        Marker::Dash => " style='list-style-type:circle'"@,
        Marker::Plus => " style='list-style-type:square'"@,
        Marker::UpperAlpha => " type='A'"@,
        Marker::LowerAlpha => " type='a'"@,
        Marker::UpperRoman => " type='I'"@,
        Marker::LowerRoman => " type='i'"@,
        Marker::Numeric => Seq::empty(),
    }
}

/// The `start` attribute, written only for a list that does not start at 1.
pub open spec fn start_attr(start: u32) -> Seq<char> {
    if start == 1 {
        Seq::empty()
    } else {
        " start='"@ + decimal(start as nat) + "'"@
    }
}

/// The element name of an inline span.
pub open spec fn inline_tag(tag: Inline) -> Seq<char> {
    match tag {
        Inline::Emphasis => "em"@,
        Inline::Strong => "strong"@,
        Inline::Code => "code"@,
    }
}

/// The `class` attribute that names the language of a code block.
pub open spec fn language_attr(lang: Option<Seq<char>>) -> Seq<char> {
    match lang {
        Some(l) => " class=\"language-"@ + l + "\""@,
        None => Seq::empty(),
    }
}

/// The HTML of one block.
pub open spec fn render_block(b: BlockModel) -> Seq<char>
    decreases b,
{
    match b {
        BlockModel::Blockquote(bs) => "<blockquote>\n"@ + render_all(bs) + "</blockquote>\n"@,
        BlockModel::Code(lang, bs) => "<pre><code"@ + language_attr(lang) + ">"@ + render_all(bs)
            + (if bs.len() > 0 {
            "\n"@
        } else {
            Seq::empty()
        }) + "</code></pre>\n"@,
        BlockModel::Header(level, bs) => "<h"@ + decimal(level as nat) + ">"@ + render_all(bs)
            + "</h"@ + decimal(level as nat) + ">\n"@,
        BlockModel::List(marker, start, bs) => "<"@ + list_tag(marker) + list_attr(marker)
            + start_attr(start) + ">\n"@ + render_all(bs) + "</"@ + list_tag(marker) + ">\n"@,
        BlockModel::ListElement(bs) => "<li>\n"@ + render_all(bs) + "</li>\n"@,
        BlockModel::Paragraph(bs) => "<p>"@ + render_all(bs) + "</p>\n"@,
        BlockModel::ThematicBreak => "<hr />\n"@,
        BlockModel::RawHtml(bs) => render_all(bs),
        BlockModel::Text(s) => s,
        BlockModel::Inline(tag, bs) => "<"@ + inline_tag(tag) + ">"@ + render_all(bs) + "</"@
            + inline_tag(tag) + ">"@,
    }
}

/// The HTML of a run of blocks: one after the other, nothing in between.
pub open spec fn render_all(bs: Seq<BlockModel>) -> Seq<char>
    decreases bs,
{
    if bs.len() == 0 {
        Seq::empty()
    } else {
        render_all(bs.drop_last()) + render_block(bs.last())
    }
}

/// Rendering a run with one more block appends that block's HTML.
pub proof fn lemma_render_push(bs: Seq<BlockModel>, b: BlockModel)
    ensures
        render_all(bs.push(b)) == render_all(bs) + render_block(b),
{
    assert(bs.push(b).drop_last() == bs);
}

/// The model of a run with one more block.
pub proof fn lemma_models_take(bs: Seq<Block>, i: int)
    requires
        0 <= i < bs.len(),
    ensures
        models_of(bs.take(i + 1)) == models_of(bs.take(i)).push(model_of(bs[i])),
{
    assert(bs.take(i + 1).drop_last() == bs.take(i));
}

/// A run of blocks and its model have the same length, block by block.
pub proof fn lemma_models_index(bs: Seq<Block>)
    ensures
        models_of(bs).len() == bs.len(),
        forall|i: int| 0 <= i < bs.len() ==> (#[trigger] models_of(bs)[i]) == model_of(bs[i]),
    decreases bs.len(),
{
    if bs.len() > 0 {
        lemma_models_index(bs.drop_last());
    }
}

fn push_list_tag(out: &mut String, marker: Marker)
    ensures
        final(out)@ == old(out)@ + list_tag(marker),
{
    match marker {
        Marker::Bullet | Marker::Dash | Marker::Plus => out.append("ul"),
        _ => out.append("ol"),
    }
}

fn push_list_attr(out: &mut String, marker: Marker)
    ensures
        final(out)@ == old(out)@ + list_attr(marker),
{
    match marker {
        Marker::Bullet => {},
        Marker::Dash => out.append(" style='list-style-type:circle'"),
        Marker::Plus => out.append(" style='list-style-type:square'"),
        Marker::UpperAlpha => out.append(" type='A'"),
        Marker::LowerAlpha => out.append(" type='a'"),
        Marker::UpperRoman => out.append(" type='I'"),
        Marker::LowerRoman => out.append(" type='i'"),
        Marker::Numeric => {},
    }
}

fn push_start_attr(out: &mut String, start: u32)
    ensures
        final(out)@ == old(out)@ + start_attr(start),
{
    if start != 1 {
        out.append(" start='");
        push_decimal(out, start as u64);
        out.append("'");
    }
}

fn push_inline_tag(out: &mut String, tag: Inline)
    ensures
        final(out)@ == old(out)@ + inline_tag(tag),
{
    match tag {
        Inline::Emphasis => out.append("em"),
        Inline::Strong => out.append("strong"),
        Inline::Code => out.append("code"),
    }
}

fn push_language_attr(out: &mut String, lang: &Option<String>)
    ensures
        final(out)@ == old(out)@ + language_attr(
            match *lang {
                Some(l) => Some(l@),
                None => None,
            },
        ),
{
    match lang {
        Some(l) => {
            out.append(" class=\"language-");
            out.append(l.as_str());
            out.append("\"");
        },
        None => {},
    }
}

fn render_quote(bs: &Vec<Block>, out: &mut String)
    ensures
        final(out)@ == old(out)@ + render_block(BlockModel::Blockquote(models_of(bs@))),
    decreases bs, 2nat,
{
    out.append("<blockquote>\n");
    render_blocks(bs, out);
    out.append("</blockquote>\n");
}

fn render_code(lang: &Option<String>, bs: &Vec<Block>, out: &mut String)
    ensures
        final(out)@ == old(out)@ + render_block(
            BlockModel::Code(
                match *lang {
                    Some(l) => Some(l@),
                    None => None,
                },
                models_of(bs@),
            ),
        ),
    decreases bs, 2nat,
{
    out.append("<pre><code");
    push_language_attr(out, lang);
    out.append(">");
    render_blocks(bs, out);
    proof {
        lemma_models_index(bs@);
    }
    if bs.len() > 0 {
        out.append("\n");
    }
    out.append("</code></pre>\n");
}

fn render_header(level: usize, bs: &Vec<Block>, out: &mut String)
    ensures
        final(out)@ == old(out)@ + render_block(BlockModel::Header(level, models_of(bs@))),
    decreases bs, 2nat,
{
    out.append("<h");
    push_decimal(out, level as u64);
    out.append(">");
    render_blocks(bs, out);
    out.append("</h");
    push_decimal(out, level as u64);
    out.append(">\n");
}

fn render_list(marker: Marker, start: u32, bs: &Vec<Block>, out: &mut String)
    ensures
        final(out)@ == old(out)@ + render_block(BlockModel::List(marker, start, models_of(bs@))),
    decreases bs, 2nat,
{
    out.append("<");
    push_list_tag(out, marker);
    push_list_attr(out, marker);
    push_start_attr(out, start);
    out.append(">\n");
    render_blocks(bs, out);
    out.append("</");
    push_list_tag(out, marker);
    out.append(">\n");
}

fn render_item(bs: &Vec<Block>, out: &mut String)
    ensures
        final(out)@ == old(out)@ + render_block(BlockModel::ListElement(models_of(bs@))),
    decreases bs, 2nat,
{
    out.append("<li>\n");
    render_blocks(bs, out);
    out.append("</li>\n");
}

fn render_paragraph(bs: &Vec<Block>, out: &mut String)
    ensures
        final(out)@ == old(out)@ + render_block(BlockModel::Paragraph(models_of(bs@))),
    decreases bs, 2nat,
{
    out.append("<p>");
    render_blocks(bs, out);
    out.append("</p>\n");
}

fn render_span(tag: Inline, bs: &Vec<Block>, out: &mut String)
    ensures
        final(out)@ == old(out)@ + render_block(BlockModel::Inline(tag, models_of(bs@))),
    decreases bs, 2nat,
{
    out.append("<");
    push_inline_tag(out, tag);
    out.append(">");
    render_blocks(bs, out);
    out.append("</");
    push_inline_tag(out, tag);
    out.append(">");
}

impl Block {
    /// Appends the HTML of this block to `out`.
    pub fn render(&self, out: &mut String)
        ensures
            final(out)@ == old(out)@ + render_block(model_of(*self)),
        decreases self, 0nat,
    {
        match self {
            Block::Blockquote(bs) => render_quote(bs, out),
            Block::Code(lang, bs) => render_code(lang, bs, out),
            Block::Header(level, bs) => render_header(*level, bs, out),
            Block::List(marker, start, bs) => render_list(*marker, *start, bs, out),
            Block::ListElement(bs) => render_item(bs, out),
            Block::Paragraph(bs) => render_paragraph(bs, out),
            Block::ThematicBreak => {
                out.append("<hr />\n");
            },
            Block::RawHtml(bs) => {
                render_blocks(bs, out);
            },
            Block::Text(s) => {
                out.append(s.as_str());
            },
            Block::Inline(tag, bs) => render_span(*tag, bs, out),
        }
    }

    /// The HTML of this block.
    pub fn to_string(&self) -> (s: String)
        ensures
            s@ == render_block(model_of(*self)),
    {
        let mut out = String::new();
        self.render(&mut out);
        out
    }
}

/// Appends the HTML of each block of `blocks`, in order, to `out`.
pub fn render_blocks(blocks: &Vec<Block>, out: &mut String)
    ensures
        final(out)@ == old(out)@ + render_all(models_of(blocks@)),
    decreases blocks, 1nat,
{
    let mut i: usize = 0;
    while i < blocks.len()
        invariant
            i <= blocks.len(),
            out@ == old(out)@ + render_all(models_of(blocks@.take(i as int))),
        decreases blocks.len() - i,
    {
        proof {
            lemma_models_take(blocks@, i as int);
            lemma_render_push(models_of(blocks@.take(i as int)), model_of(blocks@[i as int]));
        }
        blocks[i].render(out);
        i += 1;
    }
    assert(blocks@.take(i as int) == blocks@);
}

/// A whole document: its top-level blocks.
#[derive(Debug, PartialEq, Eq)]
pub struct Doc {
    blocks: Vec<Block>,
}

impl View for Doc {
    type V = Seq<BlockModel>;

    closed spec fn view(&self) -> Seq<BlockModel> {
        models_of(self.blocks@)
    }
}

impl Doc {
    /// A document made of `blocks`.
    pub fn new(blocks: Vec<Block>) -> (doc: Doc)
        ensures
            doc@ == models_of(blocks@),
    {
        Doc { blocks }
    }

    /// The top-level blocks.
    pub fn blocks(&self) -> (blocks: &Vec<Block>)
        ensures
            models_of(blocks@) == self@,
    {
        &self.blocks
    }

    /// The HTML of the document: its blocks rendered one after the other.
    pub fn to_string(&self) -> (s: String)
        ensures
            s@ == render_all(self@),
    {
        let mut out = String::new();
        render_blocks(&self.blocks, &mut out);
        out
    }
}

} // verus!

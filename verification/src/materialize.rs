//! The tree materializer: the finished arena becomes a document.

use vstd::prelude::*;
use vstd::string::*;
use crate::arena::{indices, Arena, Kind, KindModel, Nodes};
use crate::tree::{model_of, models_of, Block, BlockModel, Doc};

verus! {

/// The block that node `idx` of an arena stands for, with the blocks of its
/// children. The document root stands for no block.
pub open spec fn block_of(a: Nodes, idx: int) -> BlockModel
    recommends
        0 < idx < a.len(),
    decreases a.len() - idx, a[idx].children.len() + 1,
{
    if 0 <= idx < a.len() {
        let kids = blocks_of(a, idx, a[idx].children.len());
        match a[idx].kind {
            KindModel::Blockquote => BlockModel::Blockquote(kids),
            KindModel::Code(lang) => BlockModel::Code(lang, kids),
            KindModel::Doc => arbitrary(),
            KindModel::Header(level) => BlockModel::Header(level, kids),
            KindModel::List(data) => BlockModel::List(data.marker, data.start_value, kids),
            KindModel::ListElement => BlockModel::ListElement(kids),
            KindModel::Paragraph => BlockModel::Paragraph(kids),
            KindModel::ThematicBreak => BlockModel::ThematicBreak,
            KindModel::RawHtml => BlockModel::RawHtml(kids),
            KindModel::Text(text) => BlockModel::Text(text),
            KindModel::Inline(tag) => BlockModel::Inline(tag, kids),
        }
    } else {
        arbitrary()
    }
}

/// The blocks of the first `n` children of node `idx`, in order.
pub open spec fn blocks_of(a: Nodes, idx: int, n: nat) -> Seq<BlockModel>
    decreases a.len() - idx, n,
{
    if n == 0 || !(0 <= idx < a.len()) || n > a[idx].children.len() {
        Seq::empty()
    } else {
        let c = a[idx].children[n - 1];
        blocks_of(a, idx, (n - 1) as nat).push(
            if idx < c < a.len() {
                block_of(a, c)
            } else {
                arbitrary()
            },
        )
    }
}

/// The document that an arena holds: the blocks of the children of the
/// root.
pub open spec fn forest(a: Nodes) -> Seq<BlockModel> {
    blocks_of(a, 0, a[0].children.len())
}

fn lang_of(lang: &Option<String>) -> (copy: Option<String>)
    ensures
        match copy {
            Some(c) => *lang is Some && c@ == lang->0@,
            None => *lang is None,
        },
{
    match lang {
        Some(l) => Some(l.clone()),
        None => None,
    }
}

/// Converts the children of node `idx` into blocks.
pub fn convert_blocks(arena: &Arena, idx: usize) -> (blocks: Vec<Block>)
    requires
        arena.wf(),
        idx < arena@.len(),
    ensures
        models_of(blocks@) == blocks_of(arena@, idx as int, arena@[idx as int].children.len()),
    decreases arena@.len() - idx, arena@[idx as int].children.len(),
{
    let children = arena.children(idx);
    let mut blocks: Vec<Block> = Vec::new();
    let mut k: usize = 0;
    while k < children.len()
        invariant
            arena.wf(),
            idx < arena@.len(),
            indices(children@) == arena@[idx as int].children,
            k <= children.len(),
            blocks@.len() == k,
            models_of(blocks@) == blocks_of(arena@, idx as int, k as nat),
        decreases children.len() - k,
    {
        let c: usize = children[k];
        assert(c == arena@[idx as int].children[k as int]);
        let ghost before = blocks@;
        let block = to_block(arena, c);
        blocks.push(block);
        assert(blocks@.drop_last() == before);
        k += 1;
    }
    blocks
}

/// Converts node `idx`, which is not the root, into a block.
pub fn to_block(arena: &Arena, idx: usize) -> (block: Block)
    requires
        arena.wf(),
        0 < idx < arena@.len(),
    ensures
        model_of(block) == block_of(arena@, idx as int),
    decreases arena@.len() - idx, arena@[idx as int].children.len() + 1,
{
    match arena.kind(idx) {
        Kind::Doc => {
            proof {
                assert(!(arena@[idx as int].kind is Doc));
            }
            Block::ThematicBreak
        },
        Kind::Code(lang) => Block::Code(lang_of(lang), convert_blocks(arena, idx)),
        Kind::Blockquote => Block::Blockquote(convert_blocks(arena, idx)),
        Kind::Header(level) => Block::Header(*level, convert_blocks(arena, idx)),
        Kind::List(data) => Block::List(data.marker, data.start_value, convert_blocks(arena, idx)),
        Kind::ListElement => Block::ListElement(convert_blocks(arena, idx)),
        Kind::Paragraph => Block::Paragraph(convert_blocks(arena, idx)),
        Kind::ThematicBreak => Block::ThematicBreak,
        Kind::Text(text) => Block::Text(text.clone()),
        Kind::Inline(tag) => Block::Inline(*tag, convert_blocks(arena, idx)),
        Kind::RawHtml => Block::RawHtml(convert_blocks(arena, idx)),
    }
}

/// Converts the finished arena into a document.
pub fn build_doc(arena: &Arena) -> (doc: Doc)
    requires
        arena.wf(),
    ensures
        doc@ == forest(arena@),
{
    Doc::new(convert_blocks(arena, 0))
}

} // verus!

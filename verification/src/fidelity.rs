//! Code fidelity: what a fenced code block holds, and how it renders.

use vstd::prelude::*;
use vstd::seq_lib::lemma_flatten_concat;
use crate::arena::{
    added, attached, closed, lemma_attached_open, lemma_attached_wf, lemma_closed_wf,
    lemma_open_node_range, lemma_settled, lemma_settled_inline, open_node, settled,
    well_formed, with_text, KindModel, Nodes,
};
use crate::blocks::{
    code_texts, ends_fence, escape_angles, fence_body, fence_nodes, lemma_code_fidelity,
    strip_indent, with_texts, FenceModel,
};
use crate::materialize::{block_of, blocks_of};
use crate::tree::{render_all, render_block, BlockModel};

verus! {

/// Texts as blocks.
pub open spec fn text_blocks(pieces: Seq<Seq<char>>) -> Seq<BlockModel> {
    Seq::new(pieces.len(), |i: int| BlockModel::Text(pieces[i]))
}

/// Whether the children of node `c` are texts, all of them.
pub open spec fn only_texts(a: Nodes, c: int) -> bool {
    forall|k: int|
        0 <= k < a[c].children.len() ==> a[#[trigger] a[c].children[k]].kind is Text
}

/// The texts that the children of node `c` hold, in order.
pub open spec fn child_texts(a: Nodes, c: int) -> Seq<Seq<char>> {
    Seq::new(a[c].children.len(), |k: int| a[a[c].children[k]].kind->Text_0)
}

/// The texts that the body of a code block is added as, from line `idx` on:
/// the texts of each line, and a line feed before every line but the first.
pub open spec fn body_texts(fence: FenceModel, lines: Seq<Seq<char>>, idx: int, first: bool) -> Seq<
    Seq<char>,
>
    decreases lines.len() - idx,
{
    if idx < 0 || idx >= lines.len() || ends_fence(fence.marker, lines[idx]) {
        Seq::empty()
    } else {
        (if first {
            Seq::empty()
        } else {
            seq!["\n"@]
        }) + code_texts(strip_indent(lines[idx], fence.indent)) + body_texts(
            fence,
            lines,
            idx + 1,
            false,
        )
    }
}

/// The content of a code block, from line `idx` on: each line up to the
/// closing fence, without the indentation of the opening fence and with `<`
/// and `>` written as entities, and a line feed between two lines.
pub open spec fn code_content(fence: FenceModel, lines: Seq<Seq<char>>, idx: int, first: bool) -> Seq<
    char,
>
    decreases lines.len() - idx,
{
    if idx < 0 || idx >= lines.len() || ends_fence(fence.marker, lines[idx]) {
        Seq::empty()
    } else {
        (if first {
            Seq::empty()
        } else {
            "\n"@
        }) + escape_angles(strip_indent(lines[idx], fence.indent)) + code_content(
            fence,
            lines,
            idx + 1,
            false,
        )
    }
}

/// After a closed node has been attached under the open node, the open node
/// is the same as before.
pub proof fn lemma_leaf_keeps_open(a: Nodes, parent: int, kind: KindModel, idx: int)
    requires
        well_formed(a),
        0 <= idx < a.len(),
        parent == open_node(a, idx),
    ensures
        open_node(closed(attached(a, parent, kind), a.len() as int), idx) == parent,
    decreases a.len() - idx,
{
    let b = closed(attached(a, parent, kind), a.len() as int);
    lemma_open_node_range(a, idx);
    if idx == parent {
        assert(b[idx].children.last() == a.len());
        assert(!b[a.len() as int].open);
    } else {
        let c = a[idx].children.last();
        assert(b[idx] == a[idx]);
        assert(idx < c < a.len());
        assert(c != parent ==> b[c] == a[c]);
        lemma_leaf_keeps_open(a, parent, kind, c);
    }
}

/// A text added to an arena becomes the last child of the open node, which
/// stays the open node.
pub proof fn lemma_text_child(a: Nodes, text: Seq<char>)
    requires
        well_formed(a),
        only_texts(a, open_node(a, 0)),
    ensures
        well_formed(with_text(a, text)),
        with_text(a, text).len() == a.len() + 1,
        open_node(with_text(a, text), 0) == open_node(a, 0),
        only_texts(with_text(a, text), open_node(a, 0)),
        child_texts(with_text(a, text), open_node(a, 0)) == child_texts(a, open_node(a, 0)).push(
            text,
        ),
        with_text(a, text)[open_node(a, 0)].kind == a[open_node(a, 0)].kind,
{
    let c = open_node(a, 0);
    let kind = KindModel::Text(text);
    let b = with_text(a, text);
    lemma_settled_inline(a, kind);
    lemma_open_node_range(a, 0);
    lemma_attached_wf(a, c, kind);
    lemma_closed_wf(attached(a, c, kind), a.len() as int);
    lemma_leaf_keeps_open(a, c, kind, 0);
    assert(b[c].children == a[c].children.push(a.len() as int));
    assert forall|k: int| 0 <= k < b[c].children.len() implies b[#[trigger] b[c].children[k]].kind
        is Text && b[b[c].children[k]].kind->Text_0 == child_texts(a, c).push(text)[k] by {
        if k < a[c].children.len() {
            let j = a[c].children[k];
            assert(c < j < a.len());
            assert(b[j] == a[j]);
        }
    }
    assert(child_texts(b, c) =~= child_texts(a, c).push(text));
}

/// Texts added to an arena become the last children of the open node, in
/// their order.
pub proof fn lemma_texts_children(a: Nodes, pieces: Seq<Seq<char>>)
    requires
        well_formed(a),
        only_texts(a, open_node(a, 0)),
    ensures
        well_formed(with_texts(a, pieces)),
        with_texts(a, pieces).len() >= a.len(),
        open_node(with_texts(a, pieces), 0) == open_node(a, 0),
        only_texts(with_texts(a, pieces), open_node(a, 0)),
        child_texts(with_texts(a, pieces), open_node(a, 0)) == child_texts(a, open_node(a, 0))
            + pieces,
        with_texts(a, pieces)[open_node(a, 0)].kind == a[open_node(a, 0)].kind,
    decreases pieces.len(),
{
    let c = open_node(a, 0);
    if pieces.len() == 0 {
        assert(child_texts(a, c) + pieces =~= child_texts(a, c));
    } else {
        lemma_text_child(a, pieces[0]);
        lemma_texts_children(with_text(a, pieces[0]), pieces.drop_first());
        assert(child_texts(a, c).push(pieces[0]) + pieces.drop_first() =~= child_texts(a, c)
            + pieces);
    }
}

/// The body of a code block becomes the last children of the open node: the
/// texts of its lines, and the line feeds between them.
pub proof fn lemma_body_children(
    a: Nodes,
    fence: FenceModel,
    lines: Seq<Seq<char>>,
    idx: int,
    first: bool,
)
    requires
        well_formed(a),
        only_texts(a, open_node(a, 0)),
    ensures
        well_formed(fence_body(a, fence, lines, idx, first)),
        fence_body(a, fence, lines, idx, first).len() >= a.len(),
        open_node(fence_body(a, fence, lines, idx, first), 0) == open_node(a, 0),
        only_texts(fence_body(a, fence, lines, idx, first), open_node(a, 0)),
        child_texts(fence_body(a, fence, lines, idx, first), open_node(a, 0)) == child_texts(
            a,
            open_node(a, 0),
        ) + body_texts(fence, lines, idx, first),
        fence_body(a, fence, lines, idx, first)[open_node(a, 0)].kind == a[open_node(a, 0)].kind,
    decreases lines.len() - idx,
{
    let c = open_node(a, 0);
    if idx < 0 || idx >= lines.len() || ends_fence(fence.marker, lines[idx]) {
        assert(child_texts(a, c) + body_texts(fence, lines, idx, first) =~= child_texts(a, c));
    } else {
        let pieces = code_texts(strip_indent(lines[idx], fence.indent));
        let b = if first {
            a
        } else {
            with_text(a, "\n"@)
        };
        if !first {
            lemma_text_child(a, "\n"@);
        }
        lemma_texts_children(b, pieces);
        let d = with_texts(b, pieces);
        lemma_body_children(d, fence, lines, idx + 1, false);
        let rest = body_texts(fence, lines, idx + 1, false);
        if first {
            assert(child_texts(a, c) + pieces + rest =~= child_texts(a, c) + (
            Seq::<Seq<char>>::empty() + pieces + rest));
        } else {
            assert(child_texts(a, c).push("\n"@) + pieces + rest =~= child_texts(a, c) + (seq![
                "\n"@,
            ] + pieces + rest));
        }
    }
}

/// The texts of the body, read one after the other, are the content of the
/// code block.
pub proof fn lemma_body_content(fence: FenceModel, lines: Seq<Seq<char>>, idx: int, first: bool)
    ensures
        body_texts(fence, lines, idx, first).flatten() == code_content(fence, lines, idx, first),
    decreases lines.len() - idx,
{
    if idx < 0 || idx >= lines.len() || ends_fence(fence.marker, lines[idx]) {
        assert(Seq::<Seq<char>>::empty().flatten() =~= Seq::<char>::empty());
    } else {
        let line = strip_indent(lines[idx], fence.indent);
        let lead: Seq<Seq<char>> = if first {
            Seq::empty()
        } else {
            seq!["\n"@]
        };
        let rest = body_texts(fence, lines, idx + 1, false);
        lemma_code_fidelity(line);
        lemma_body_content(fence, lines, idx + 1, false);
        lemma_flatten_concat(lead + code_texts(line), rest);
        lemma_flatten_concat(lead, code_texts(line));
        if first {
            assert(lead.flatten() =~= Seq::<char>::empty());
        } else {
            assert(lead.drop_first() =~= Seq::<Seq<char>>::empty());
            assert(lead.drop_first().flatten() =~= Seq::<char>::empty());
            assert(lead.flatten() =~= "\n"@);
        }
    }
}

/// The blocks of the children of a node that has texts alone for children
/// are these texts.
pub proof fn lemma_text_blocks(a: Nodes, c: int, n: nat)
    requires
        well_formed(a),
        0 <= c < a.len(),
        only_texts(a, c),
        n <= a[c].children.len(),
    ensures
        blocks_of(a, c, n) == text_blocks(child_texts(a, c).take(n as int)),
    decreases n,
{
    if n == 0 {
        assert(blocks_of(a, c, n) =~= text_blocks(child_texts(a, c).take(n as int)));
    } else {
        lemma_text_blocks(a, c, (n - 1) as nat);
        let j = a[c].children[n - 1];
        assert(c < j < a.len());
        assert(a[j].kind is Text);
        assert(block_of(a, j) == BlockModel::Text(a[j].kind->Text_0));
        assert(blocks_of(a, c, n) =~= text_blocks(child_texts(a, c).take(n as int)));
    }
}

/// Texts render as they are, one after the other.
pub proof fn lemma_render_texts(pieces: Seq<Seq<char>>)
    ensures
        render_all(text_blocks(pieces)) == pieces.flatten(),
    decreases pieces.len(),
{
    if pieces.len() == 0 {
        assert(pieces.flatten() =~= Seq::<char>::empty());
    } else {
        let front = pieces.drop_last();
        lemma_render_texts(front);
        assert(text_blocks(pieces).drop_last() =~= text_blocks(front));
        assert(render_block(text_blocks(pieces).last()) == pieces.last());
        front.lemma_flatten_push(pieces.last());
        assert(front.push(pieces.last()) =~= pieces);
    }
}

/// Code fidelity. A fenced code block that starts at line `idx` becomes one
/// code node, the first new node of the arena, whose children are texts.
/// Read one after the other, and that is how they render, these texts are
/// the lines of the body as they are in the source, but for the indentation
/// of the opening fence, which is removed, and for `<` and `>`, which are
/// written as entities; a line feed stands between two lines. No white space
/// inside a line is changed.
pub proof fn lemma_code_block(a: Nodes, fence: FenceModel, lines: Seq<Seq<char>>, idx: int)
    requires
        well_formed(a),
    ensures
        block_of(fence_nodes(a, fence, lines, idx), a.len() as int) == BlockModel::Code(
            fence.lang,
            text_blocks(body_texts(fence, lines, idx + 1, true)),
        ),
        render_all(text_blocks(body_texts(fence, lines, idx + 1, true))) == code_content(
            fence,
            lines,
            idx + 1,
            true,
        ),
{
    let kind = KindModel::Code(fence.lang);
    let s = settled(a, kind);
    lemma_settled(a, kind);
    lemma_open_node_range(s, 0);
    let p = open_node(s, 0);
    let start = added(a, kind);
    let c = a.len() as int;
    lemma_attached_wf(s, p, kind);
    lemma_attached_open(s, p, kind, 0);
    assert(start.len() == a.len() + 1);
    assert(open_node(start, 0) == c);
    assert(start[c].children.len() == 0);
    assert(only_texts(start, c));
    assert(child_texts(start, c) =~= Seq::<Seq<char>>::empty());
    lemma_body_children(start, fence, lines, idx + 1, true);
    let body = fence_body(start, fence, lines, idx + 1, true);
    let pieces = body_texts(fence, lines, idx + 1, true);
    assert(child_texts(body, c) =~= pieces);
    let done = closed(body, c);
    lemma_closed_wf(body, c);
    assert(done[c].children == body[c].children);
    assert(only_texts(done, c)) by {
        assert forall|k: int| 0 <= k < done[c].children.len() implies done[#[trigger] done[c].children[
            k
        ]].kind is Text by {
            let j = body[c].children[k];
            assert(body[j].kind is Text);
        }
    }
    assert(child_texts(done, c) =~= pieces) by {
        assert forall|k: int| 0 <= k < done[c].children.len() implies done[done[c].children[k]].kind
            == body[body[c].children[k]].kind by {}
    }
    lemma_text_blocks(done, c, done[c].children.len());
    assert(child_texts(done, c).take(done[c].children.len() as int) =~= pieces);
    lemma_render_texts(pieces);
    lemma_body_content(fence, lines, idx + 1, true);
}

} // verus!

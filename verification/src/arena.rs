//! The node arena: the tree under construction, held as a flat, growing list
//! of nodes that refer to their children by index.

use vstd::prelude::*;
use crate::tree::{Inline, Marker};

verus! {

/// How a list marker ends.
#[derive(Copy, Clone, Debug, PartialEq, Eq, Structural)]
pub enum MarkerClose {
    /// Nothing follows the marker character.
    Plain,
    Dot,
    Bracket,
}

/// What a list remembers of the item that opened it.
#[derive(Copy, Clone, Debug, PartialEq, Eq, Structural)]
pub struct ListData {
    /// Length of the marker, leading spaces included.
    pub dist_to_marker: usize,
    /// Length of the run of spaces after the marker.
    pub dist_after_marker: usize,
    pub marker: Marker,
    pub close: MarkerClose,
    pub start_value: u32,
}

/// The kind of a node.
#[derive(Debug)]
pub enum Kind {
    Blockquote,
    Code(Option<String>),
    Doc,
    Header(usize),
    List(ListData),
    ListElement,
    Paragraph,
    ThematicBreak,
    RawHtml,
    Text(String),
    Inline(Inline),
}

/// What a `Kind` stands for in contracts.
pub enum KindModel {
    Blockquote,
    Code(Option<Seq<char>>),
    Doc,
    Header(usize),
    List(ListData),
    ListElement,
    Paragraph,
    ThematicBreak,
    RawHtml,
    Text(Seq<char>),
    Inline(Inline),
}

impl View for Kind {
    type V = KindModel;

    open spec fn view(&self) -> KindModel {
        match *self {
            Kind::Blockquote => KindModel::Blockquote,
            Kind::Code(lang) => KindModel::Code(
                match lang {
                    Some(l) => Some(l@),
                    None => None,
                },
            ),
            Kind::Doc => KindModel::Doc,
            Kind::Header(level) => KindModel::Header(level),
            Kind::List(data) => KindModel::List(data),
            Kind::ListElement => KindModel::ListElement,
            Kind::Paragraph => KindModel::Paragraph,
            Kind::ThematicBreak => KindModel::ThematicBreak,
            Kind::RawHtml => KindModel::RawHtml,
            Kind::Text(s) => KindModel::Text(s@),
            Kind::Inline(tag) => KindModel::Inline(tag),
        }
    }
}

/// A node as contracts see it.
pub struct NodeModel {
    pub kind: KindModel,
    pub open: bool,
    pub children: Seq<int>,
}

/// A list of node indices as contracts see it.
pub open spec fn indices(v: Seq<usize>) -> Seq<int> {
    Seq::new(v.len(), |i: int| v[i] as int)
}

/// The arena as contracts see it.
pub type Nodes = Seq<NodeModel>;

/// A node of the tree under construction.
#[derive(Debug)]
pub struct Node {
    kind: Kind,
    open: bool,
    blocks: Vec<usize>,
}

impl View for Node {
    type V = NodeModel;

    closed spec fn view(&self) -> NodeModel {
        NodeModel { kind: self.kind@, open: self.open, children: indices(self.blocks@) }
    }
}

/// Whether an open node of kind `open` ends when a node of kind `new`
/// arrives. Texts and spans end nothing; the document, block quotes, list
/// items and raw HTML never end this way; a paragraph or a header ends for
/// anything but a paragraph; every other kind ends.
pub open spec fn closes(open: KindModel, new: KindModel) -> bool {
    if new is Inline || new is Text {
        false
    } else {
        match open {
            KindModel::Doc
            | KindModel::Blockquote
            | KindModel::ListElement
            | KindModel::RawHtml => false,
            KindModel::Paragraph | KindModel::Header(_) => !(new is Paragraph),
            _ => true,
        }
    }
}

/// The arena of a parse that has not begun: the open document root alone.
pub open spec fn fresh() -> Nodes {
    seq![NodeModel { kind: KindModel::Doc, open: true, children: Seq::empty() }]
}

/// Whether a kind can be the kind of a node below the root: it is no
/// document, and a header has a level from 1 to 6.
pub open spec fn is_block_kind(kind: KindModel) -> bool {
    match kind {
        KindModel::Doc => false,
        KindModel::Header(level) => 1 <= level <= 6,
        _ => true,
    }
}

/// The shape every arena keeps: node 0 is the document root and is open,
/// every other node has the kind of a block, and every child was created
/// after its parent.
pub open spec fn well_formed(a: Nodes) -> bool {
    &&& a.len() >= 1
    &&& a[0].kind is Doc
    &&& a[0].open
    &&& forall|i: int| 1 <= i < a.len() ==> is_block_kind((#[trigger] a[i]).kind)
    &&& forall|i: int, k: int|
        0 <= i < a.len() && 0 <= k < a[i].children.len() ==> i < (#[trigger] a[i].children[k])
            < a.len()
}

/// Whether node `i` lies on the open chain below `idx`: it is `idx` itself,
/// or it is reached from `idx` by going to the last child, as long as that is
/// open.
pub open spec fn on_chain(a: Nodes, idx: int, i: int) -> bool
    decreases a.len() - idx,
{
    idx == i || (0 <= idx < a.len() && a[idx].children.len() > 0 && idx < a[idx].children.last()
        < a.len() && a[a[idx].children.last()].open && on_chain(a, a[idx].children.last(), i))
}

/// How a node changes while lines are parsed. Closing is final: a closed
/// node stays closed. The node keeps the children it has, in their order,
/// and gets new ones only after them; these are nodes that did not exist
/// before, `count` being the number of nodes that did. The node keeps its
/// kind, but that a paragraph may become a header.
pub open spec fn node_grows(x: NodeModel, y: NodeModel, count: int) -> bool {
    &&& (!x.open ==> !y.open)
    &&& x.children.len() <= y.children.len()
    &&& y.children.subrange(0, x.children.len() as int) == x.children
    &&& (forall|k: int|
        x.children.len() <= k < y.children.len() ==> count <= #[trigger] y.children[k])
    &&& (y.kind == x.kind || (x.kind is Paragraph && y.kind is Header))
}

/// How an arena changes while lines are parsed. It grows at its end, every
/// node changes as `node_grows` says, and only a node on the open chain gets
/// new children.
pub open spec fn grows(a: Nodes, b: Nodes) -> bool {
    &&& a.len() <= b.len()
    &&& forall|i: int|
        0 <= i < a.len() ==> {
            &&& node_grows(a[i], #[trigger] b[i], a.len() as int)
            &&& (b[i].children != a[i].children ==> on_chain(a, 0, i))
        }
}

/// The open chain never takes a node back: a node of the arena that lies on
/// the open chain after the arena has grown lay on it before.
pub proof fn lemma_chain_before(a: Nodes, b: Nodes, idx: int, i: int)
    requires
        grows(a, b),
        0 <= idx < a.len(),
        0 <= i < a.len(),
        on_chain(b, idx, i),
    ensures
        on_chain(a, idx, i),
    decreases a.len() - idx,
{
    if idx != i {
        let c = b[idx].children.last();
        assert(on_chain(b, c, i));
        lemma_on_chain_order(b, c, i);
        assert(c <= i);
        assert(node_grows(a[idx], b[idx], a.len() as int));
        if b[idx].children.len() > a[idx].children.len() {
            assert(a.len() <= b[idx].children[b[idx].children.len() - 1]);
        }
        assert(b[idx].children.len() == a[idx].children.len());
        assert(b[idx].children.subrange(0, a[idx].children.len() as int) =~= b[idx].children);
        assert(node_grows(a[c], b[c], a.len() as int));
        lemma_chain_before(a, b, c, i);
    }
}

/// A node on the open chain below `idx` is `idx` or a later node.
pub proof fn lemma_on_chain_order(a: Nodes, idx: int, i: int)
    requires
        on_chain(a, idx, i),
    ensures
        idx <= i,
    decreases a.len() - idx,
{
    if idx != i {
        lemma_on_chain_order(a, a[idx].children.last(), i);
    }
}

/// The deepest open node below `idx` lies on the open chain below `idx`.
pub proof fn lemma_open_node_on_chain(a: Nodes, idx: int)
    ensures
        on_chain(a, idx, open_node(a, idx)),
    decreases a.len() - idx,
{
    if 0 <= idx < a.len() && a[idx].children.len() > 0 {
        let c = a[idx].children.last();
        if idx < c < a.len() && a[c].open {
            lemma_open_node_on_chain(a, c);
        }
    }
}

/// An arena that has not changed has grown.
pub broadcast proof fn lemma_grows_same(a: Nodes)
    ensures
        #[trigger] grows(a, a),
{
    assert forall|i: int| 0 <= i < a.len() implies node_grows(
        a[i],
        #[trigger] a[i],
        a.len() as int,
    ) by {
        assert(a[i].children.subrange(0, a[i].children.len() as int) =~= a[i].children);
    }
}

/// Growth after growth is growth.
pub broadcast proof fn lemma_grows_on(a: Nodes, b: Nodes, c: Nodes)
    requires
        #[trigger] grows(a, b),
        #[trigger] grows(b, c),
    ensures
        grows(a, c),
{
    assert forall|i: int| 0 <= i < a.len() implies node_grows(a[i], #[trigger] c[i], a.len() as int)
        && (c[i].children != a[i].children ==> on_chain(a, 0, i)) by {
        let x = a[i];
        let y = b[i];
        let z = c[i];
        assert(node_grows(x, y, a.len() as int));
        assert(node_grows(y, z, b.len() as int));
        assert(z.children.subrange(0, x.children.len() as int) =~= z.children.subrange(
            0,
            y.children.len() as int,
        ).subrange(0, x.children.len() as int));
        assert forall|k: int| x.children.len() <= k < z.children.len() implies a.len()
            <= #[trigger] z.children[k] by {
            if k < y.children.len() {
                assert(z.children.subrange(0, y.children.len() as int)[k] == y.children[k]);
            }
        }
        if z.children != x.children {
            if y.children != x.children {
            } else {
                lemma_chain_before(a, b, 0, i);
            }
        }
    }
}

/// Closing a node is growth.
pub proof fn lemma_closed_grows(a: Nodes, idx: int)
    requires
        0 <= idx < a.len(),
    ensures
        grows(a, closed(a, idx)),
{
    let b = closed(a, idx);
    assert forall|i: int| 0 <= i < a.len() implies node_grows(a[i], #[trigger] b[i], a.len() as int)
        && b[i].children == a[i].children by {
        assert(b[i].children.subrange(0, a[i].children.len() as int) =~= a[i].children);
    }
}

/// Attaching a node under a node on the open chain is growth.
pub proof fn lemma_attached_grows(a: Nodes, parent: int, kind: KindModel)
    requires
        0 <= parent < a.len(),
        on_chain(a, 0, parent),
    ensures
        grows(a, attached(a, parent, kind)),
{
    let b = attached(a, parent, kind);
    assert forall|i: int| 0 <= i < a.len() implies node_grows(a[i], #[trigger] b[i], a.len() as int)
        && (i != parent ==> b[i].children == a[i].children) by {
        assert(b[i].children.subrange(0, a[i].children.len() as int) =~= a[i].children);
    }
}

/// Turning a paragraph into a header is growth.
pub proof fn lemma_retagged_grows(a: Nodes, idx: int, level: usize)
    requires
        0 <= idx < a.len(),
        a[idx].kind is Paragraph,
    ensures
        grows(a, retagged(a, idx, KindModel::Header(level))),
{
    let b = retagged(a, idx, KindModel::Header(level));
    assert forall|i: int| 0 <= i < a.len() implies node_grows(a[i], #[trigger] b[i], a.len() as int)
        && b[i].children == a[i].children by {
        assert(b[i].children.subrange(0, a[i].children.len() as int) =~= a[i].children);
    }
}

/// The deepest open node below `idx`: follow the last child for as long as
/// it is open.
pub open spec fn open_node(a: Nodes, idx: int) -> int
    decreases a.len() - idx,
{
    if 0 <= idx < a.len() && a[idx].children.len() > 0 {
        let c = a[idx].children.last();
        if idx < c < a.len() && a[c].open {
            open_node(a, c)
        } else {
            idx
        }
    } else {
        idx
    }
}

/// The arena with node `idx` closed.
pub open spec fn closed(a: Nodes, idx: int) -> Nodes {
    a.update(idx, NodeModel { open: false, ..a[idx] })
}

/// The arena with a new open node of kind `kind` as the last child of
/// `parent`. The new node's index is the old length.
pub open spec fn attached(a: Nodes, parent: int, kind: KindModel) -> Nodes {
    a.update(parent, NodeModel { children: a[parent].children.push(a.len() as int), ..a[parent] }).push(
        NodeModel { kind, open: true, children: Seq::empty() },
    )
}

/// The arena with node `idx` given another kind.
pub open spec fn retagged(a: Nodes, idx: int, kind: KindModel) -> Nodes {
    a.update(idx, NodeModel { kind, ..a[idx] })
}

/// The arena after every open node that a new node of kind `kind` ends has
/// been closed: the deepest open node is closed, and the next, for as long as
/// `closes` says so.
pub open spec fn settled(a: Nodes, kind: KindModel) -> Nodes
    decreases open_node(a, 0),
    when well_formed(a)
    via settled_decreases
{
    let i = open_node(a, 0);
    if closes(a[i].kind, kind) {
        settled(closed(a, i), kind)
    } else {
        a
    }
}

#[via_fn]
proof fn settled_decreases(a: Nodes, kind: KindModel) {
    let i = open_node(a, 0);
    if closes(a[i].kind, kind) {
        lemma_open_node_range(a, 0);
        lemma_close_deepest(a, 0);
    }
}

/// The arena with a new open node of kind `kind` under the node that can
/// take it. The new node's index is the old length.
pub open spec fn added(a: Nodes, kind: KindModel) -> Nodes {
    let s = settled(a, kind);
    attached(s, open_node(s, 0), kind)
}

/// The arena with a new, already closed text node holding `text`.
pub open spec fn with_text(a: Nodes, text: Seq<char>) -> Nodes {
    let b = added(a, KindModel::Text(text));
    closed(b, b.len() - 1)
}

/// The arena with its deepest open node closed; unchanged when only the
/// root is open, for the root never closes.
pub open spec fn closed_deepest(a: Nodes) -> Nodes {
    let i = open_node(a, 0);
    if i == 0 {
        a
    } else {
        closed(a, i)
    }
}

/// Whether a new list item described by `item` belongs to the list described
/// by `list`: same marker and closing, the item's marker ends inside the
/// list's window, and the item's spacing, where it has any, is at least the
/// list's.
pub open spec fn list_accepts(list: ListData, item: ListData) -> bool {
    &&& list.dist_to_marker <= item.dist_to_marker
    &&& (item.dist_after_marker == 0 || list.dist_after_marker <= item.dist_after_marker)
    &&& item.dist_to_marker <= list.dist_to_marker + list.dist_after_marker
    &&& list.marker == item.marker
    &&& list.close == item.close
}

/// The deepest open list strictly below `idx` on the open chain that accepts
/// `item`, if there is one.
pub open spec fn parent_list(a: Nodes, idx: int, item: ListData) -> Option<int>
    decreases a.len() - idx,
{
    if 0 <= idx < a.len() && a[idx].children.len() > 0 {
        let c = a[idx].children.last();
        if idx < c < a.len() && a[c].open {
            match parent_list(a, c, item) {
                Some(r) => Some(r),
                None => match a[c].kind {
                    KindModel::List(data) => if list_accepts(data, item) {
                        Some(c)
                    } else {
                        None
                    },
                    _ => None,
                },
            }
        } else {
            None
        }
    } else {
        None
    }
}

/// A list found for an item is an open list below `idx` that accepts the
/// item: it has the item's marker and closing, and the item lies in its
/// window.
pub proof fn lemma_parent_list_found(a: Nodes, idx: int, item: ListData)
    requires
        parent_list(a, idx, item) is Some,
    ensures
        idx < parent_list(a, idx, item)->0 < a.len(),
        a[parent_list(a, idx, item)->0].open,
        on_chain(a, idx, parent_list(a, idx, item)->0),
        a[parent_list(a, idx, item)->0].kind is List,
        list_accepts(a[parent_list(a, idx, item)->0].kind->List_0, item),
    decreases a.len() - idx,
{
    let c = a[idx].children.last();
    if parent_list(a, c, item) is Some {
        lemma_parent_list_found(a, c, item);
    } else {
        assert(on_chain(a, c, c));
    }
}

/// List grouping: when the deepest open node below `idx` is a list that
/// accepts an item, that list is the one found for the item.
pub proof fn lemma_open_list_found(a: Nodes, idx: int, item: ListData)
    requires
        0 <= idx < a.len(),
        idx < open_node(a, idx),
        a[open_node(a, idx)].kind is List,
        list_accepts(a[open_node(a, idx)].kind->List_0, item),
    ensures
        parent_list(a, idx, item) == Some(open_node(a, idx)),
    decreases a.len() - idx,
{
    let c = a[idx].children.last();
    assert(idx < c < a.len() && a[c].open && open_node(a, idx) == open_node(a, c));
    lemma_open_node_range(a, c);
    if c < open_node(a, c) {
        lemma_open_list_found(a, c, item);
        assert(parent_list(a, c, item) == Some(open_node(a, idx)));
    } else {
        if a[c].children.len() > 0 {
            let d = a[c].children.last();
            if c < d < a.len() && a[d].open {
                lemma_open_node_range(a, d);
            }
        }
        assert(parent_list(a, c, item) is None);
    }
}

/// List grouping: where no open list has the marker of an item, no list is
/// found for the item.
pub proof fn lemma_other_marker(a: Nodes, idx: int, item: ListData)
    requires
        forall|p: int|
            0 <= p < a.len() && (#[trigger] a[p]).open && a[p].kind is List ==> a[p].kind->List_0.marker
                != item.marker,
    ensures
        parent_list(a, idx, item) is None,
{
    if parent_list(a, idx, item) is Some {
        lemma_parent_list_found(a, idx, item);
    }
}

/// The open node below `idx` is `idx` or a later node of the arena.
pub proof fn lemma_open_node_range(a: Nodes, idx: int)
    requires
        0 <= idx < a.len(),
    ensures
        idx <= open_node(a, idx) < a.len(),
        idx < open_node(a, idx) ==> a[open_node(a, idx)].open,
    decreases a.len() - idx,
{
    if a[idx].children.len() > 0 {
        let c = a[idx].children.last();
        if idx < c < a.len() && a[c].open {
            lemma_open_node_range(a, c);
        }
    }
}

/// Closing the deepest open node below `idx` moves the open node up.
pub proof fn lemma_close_deepest(a: Nodes, idx: int)
    requires
        0 <= idx < a.len(),
        idx < open_node(a, idx),
    ensures
        idx <= open_node(closed(a, open_node(a, idx)), idx) < open_node(a, idx),
    decreases a.len() - idx,
{
    let i = open_node(a, idx);
    let b = closed(a, i);
    let c = a[idx].children.last();
    lemma_open_node_range(a, c);
    if c == i {
        assert(!b[c].open);
    } else {
        assert(b[idx] == a[idx]);
        assert(b[c as int] == a[c]);
        lemma_close_deepest(a, c);
    }
}

/// Closing any node but the root keeps the arena well formed.
pub proof fn lemma_closed_wf(a: Nodes, idx: int)
    requires
        well_formed(a),
        0 < idx < a.len(),
    ensures
        well_formed(closed(a, idx)),
{
    let b = closed(a, idx);
    assert forall|i: int, k: int| 0 <= i < b.len() && 0 <= k < b[i].children.len() implies i < (
    #[trigger] b[i].children[k]) < b.len() by {
        assert(b[i].children == a[i].children);
        assert(i < a[i].children[k] < a.len());
    }
}

/// Giving a node other than the root the kind of another block keeps the
/// arena well formed.
pub proof fn lemma_retagged_wf(a: Nodes, idx: int, kind: KindModel)
    requires
        well_formed(a),
        0 < idx < a.len(),
        is_block_kind(kind),
    ensures
        well_formed(retagged(a, idx, kind)),
{
    let b = retagged(a, idx, kind);
    assert forall|i: int, k: int| 0 <= i < b.len() && 0 <= k < b[i].children.len() implies i < (
    #[trigger] b[i].children[k]) < b.len() by {
        assert(b[i].children == a[i].children);
        assert(i < a[i].children[k] < a.len());
    }
}

/// Settling closes nodes and does nothing else: the arena stays well formed
/// and keeps its length, kinds and children, and closed nodes stay closed.
pub proof fn lemma_settled(a: Nodes, kind: KindModel)
    requires
        well_formed(a),
    ensures
        well_formed(settled(a, kind)),
        settled(a, kind).len() == a.len(),
        grows(a, settled(a, kind)),
        !closes(settled(a, kind)[open_node(settled(a, kind), 0)].kind, kind),
        forall|i: int|
            0 <= i < a.len() ==> {
                &&& (#[trigger] settled(a, kind)[i]).kind == a[i].kind
                &&& settled(a, kind)[i].children == a[i].children
                &&& (settled(a, kind)[i].open ==> a[i].open)
            },
    decreases open_node(a, 0),
{
    let i = open_node(a, 0);
    lemma_open_node_range(a, 0);
    if closes(a[i].kind, kind) {
        lemma_close_deepest(a, 0);
        lemma_closed_wf(a, i);
        lemma_settled(closed(a, i), kind);
        lemma_closed_grows(a, i);
        lemma_grows_on(a, closed(a, i), settled(a, kind));
    } else {
        lemma_grows_same(a);
    }
}

/// A text or a span ends nothing, so settling for one changes nothing.
pub proof fn lemma_settled_inline(a: Nodes, kind: KindModel)
    requires
        well_formed(a),
        kind is Text || kind is Inline,
    ensures
        settled(a, kind) == a,
{
}

/// Attaching a node with the kind of a block under an existing node keeps
/// the arena well formed.
pub proof fn lemma_attached_wf(a: Nodes, parent: int, kind: KindModel)
    requires
        well_formed(a),
        0 <= parent < a.len(),
        is_block_kind(kind),
    ensures
        well_formed(attached(a, parent, kind)),
        attached(a, parent, kind).len() == a.len() + 1,
{
    let b = attached(a, parent, kind);
    assert forall|i: int, k: int| 0 <= i < b.len() && 0 <= k < b[i].children.len() implies i < (
    #[trigger] b[i].children[k]) < b.len() by {
        if i == parent {
            if k < a[i].children.len() {
                assert(b[i].children[k] == a[i].children[k]);
            }
        } else if i < a.len() {
            assert(b[i] == a[i]);
            assert(i < a[i].children[k] < a.len());
        }
    }
}

/// A node just attached is the open node of the arena when its parent was.
pub proof fn lemma_attached_open(a: Nodes, parent: int, kind: KindModel, idx: int)
    requires
        well_formed(a),
        0 <= idx < a.len(),
        parent == open_node(a, idx),
    ensures
        open_node(attached(a, parent, kind), idx) == a.len(),
    decreases a.len() - idx,
{
    let b = attached(a, parent, kind);
    lemma_open_node_range(a, idx);
    if idx == parent {
        assert(b[idx].children.last() == a.len());
        assert(b[a.len() as int].children.len() == 0);
        assert(open_node(b, a.len() as int) == a.len());
    } else {
        let c = a[idx].children.last();
        assert(b[idx] == a[idx]);
        assert(idx < c < a.len());
        assert(c as int != parent ==> b[c as int] == a[c]);
        lemma_attached_open(a, parent, kind, c);
    }
}

impl Node {
    fn new(kind: Kind) -> (node: Node)
        ensures
            node@ == (NodeModel { kind: kind@, open: true, children: Seq::empty() }),
    {
        let node = Node { kind, open: true, blocks: Vec::new() };
        assert(node@.children =~= Seq::<int>::empty());
        node
    }

    /// Whether a new node of kind `kind` ends this node.
    fn is_closed_by(&self, kind: &Kind) -> (b: bool)
        ensures
            b == closes(self@.kind, kind@),
    {
        match kind {
            Kind::Inline(_) => false,
            Kind::Text(_) => false,
            _ => match self.kind {
                Kind::Doc | Kind::Blockquote | Kind::ListElement | Kind::RawHtml => false,
                Kind::Paragraph | Kind::Header(_) => match kind {
                    Kind::Paragraph => false,
                    _ => true,
                },
                _ => true,
            },
        }
    }

    /// Whether a blank line ends this node: only a paragraph ends so.
    fn is_closed_by_hardbreak(&self) -> (b: bool)
        ensures
            b == (self@.kind is Paragraph),
    {
        match self.kind {
            Kind::Paragraph => true,
            _ => false,
        }
    }
}

/// The tree under construction.
#[derive(Debug)]
pub struct Arena {
    nodes: Vec<Node>,
}

impl View for Arena {
    type V = Nodes;

    closed spec fn view(&self) -> Nodes {
        Seq::new(self.nodes@.len(), |i: int| self.nodes@[i]@)
    }
}

impl Arena {
    /// The arena keeps the shape that `well_formed` describes, and can still
    /// grow.
    pub open spec fn wf(&self) -> bool {
        well_formed(self@)
    }

    /// An arena that holds the open document root and nothing else.
    pub fn new() -> (a: Arena)
        ensures
            a@ == fresh(),
            a.wf(),
    {
        let mut nodes: Vec<Node> = Vec::new();
        nodes.push(Node::new(Kind::Doc));
        let a = Arena { nodes };
        assert(a@ =~= fresh());
        a
    }

    /// The number of nodes.
    pub fn len(&self) -> (n: usize)
        ensures
            n == self@.len(),
    {
        self.nodes.len()
    }

    /// The kind of node `idx`.
    pub fn kind(&self, idx: usize) -> (kind: &Kind)
        requires
            idx < self@.len(),
        ensures
            kind@ == self@[idx as int].kind,
    {
        &self.nodes[idx].kind
    }

    /// The children of node `idx`, oldest first.
    pub fn children(&self, idx: usize) -> (children: &Vec<usize>)
        requires
            idx < self@.len(),
        ensures
            indices(children@) == self@[idx as int].children,
    {
        &self.nodes[idx].blocks
    }

    /// Whether node `idx` is a paragraph.
    pub fn is_paragraph(&self, idx: usize) -> (b: bool)
        requires
            idx < self@.len(),
        ensures
            b == (self@[idx as int].kind is Paragraph),
    {
        self.nodes[idx].is_closed_by_hardbreak()
    }

    /// Whether node `idx` is still open.
    pub fn is_open(&self, idx: usize) -> (b: bool)
        requires
            idx < self@.len(),
        ensures
            b == self@[idx as int].open,
    {
        self.nodes[idx].open
    }

    /// The deepest open node below `idx`.
    pub fn find_open_node(&self, idx: usize) -> (found: usize)
        requires
            self.wf(),
            idx < self@.len(),
        ensures
            found == open_node(self@, idx as int),
            idx <= found < self@.len(),
    {
        let mut cur: usize = idx;
        loop
            invariant
                self.wf(),
                idx <= cur < self@.len(),
                open_node(self@, cur as int) == open_node(self@, idx as int),
            decreases self@.len() - cur,
        {
            let n: usize = self.nodes[cur].blocks.len();
            if n == 0 {
                return cur;
            }
            let c: usize = self.nodes[cur].blocks[n - 1];
            assert(c == self@[cur as int].children[n - 1]);
            if !self.nodes[c].open {
                return cur;
            }
            cur = c;
        }
    }

    /// The deepest open list on the open chain below `idx` that accepts
    /// `item`.
    pub fn find_parent_list(&self, idx: usize, item: &ListData) -> (found: Option<usize>)
        requires
            self.wf(),
            idx < self@.len(),
        ensures
            match found {
                Some(i) => parent_list(self@, idx as int, *item) == Some(i as int) && i
                    < self@.len(),
                None => parent_list(self@, idx as int, *item) is None,
            },
        decreases self@.len() - idx,
    {
        let n: usize = self.nodes[idx].blocks.len();
        if n == 0 {
            return None;
        }
        let c: usize = self.nodes[idx].blocks[n - 1];
        assert(c == self@[idx as int].children[n - 1]);
        if !self.nodes[c].open {
            return None;
        }
        match self.find_parent_list(c, item) {
            Some(r) => Some(r),
            None => match self.nodes[c].kind {
                Kind::List(data) => {
                    if data.dist_to_marker <= item.dist_to_marker && (item.dist_after_marker == 0
                        || data.dist_after_marker <= item.dist_after_marker) && item.dist_to_marker
                        - data.dist_to_marker <= data.dist_after_marker && data.marker
                        == item.marker && data.close == item.close {
                        Some(c)
                    } else {
                        None
                    }
                },
                _ => None,
            },
        }
    }

    /// Marks node `idx` as closed.
    pub fn close_node(&mut self, idx: usize)
        requires
            idx < old(self)@.len(),
        ensures
            final(self)@ == closed(old(self)@, idx as int),
            grows(old(self)@, final(self)@),
            old(self).wf() && idx > 0 ==> final(self).wf(),
    {
        proof {
            lemma_closed_grows(self@, idx as int);
            if self.wf() && idx > 0 {
                lemma_closed_wf(self@, idx as int);
            }
        }
        self.nodes[idx].open = false;
        assert(self@ =~= closed(old(self)@, idx as int));
    }

    /// Closes the deepest open node, unless that is the root.
    pub fn close_open_node(&mut self)
        requires
            old(self).wf(),
        ensures
            final(self)@ == closed_deepest(old(self)@),
            final(self)@.len() == old(self)@.len(),
            final(self).wf(),
            grows(old(self)@, final(self)@),
    {
        let i: usize = self.find_open_node(0);
        proof {
            lemma_grows_same(self@);
        }
        if i != 0 {
            proof {
                lemma_closed_wf(self@, i as int);
                lemma_closed_grows(self@, i as int);
            }
            self.close_node(i);
        }
    }

    /// Gives node `idx` another kind.
    pub fn retag(&mut self, idx: usize, kind: Kind)
        requires
            idx < old(self)@.len(),
        ensures
            final(self)@ == retagged(old(self)@, idx as int, kind@),
    {
        self.nodes[idx].kind = kind;
        assert(self@ =~= retagged(old(self)@, idx as int, kind@));
    }

    /// Closes every open node that a node of kind `kind` ends, and returns
    /// the open node that is left: the parent for such a node.
    pub fn get_open_parent_for(&mut self, kind: &Kind) -> (parent: usize)
        requires
            old(self).wf(),
        ensures
            final(self)@ == settled(old(self)@, kind@),
            parent == open_node(final(self)@, 0),
            parent < final(self)@.len(),
            final(self).wf(),
            grows(old(self)@, final(self)@),
    {
        loop
            invariant
                self.wf(),
                old(self).wf(),
                settled(self@, kind@) == settled(old(self)@, kind@),
            decreases open_node(self@, 0),
        {
            let i: usize = self.find_open_node(0);
            if self.nodes[i].is_closed_by(kind) {
                proof {
                    lemma_close_deepest(self@, 0);
                    lemma_closed_wf(self@, i as int);
                }
                self.close_node(i);
            } else {
                proof {
                    lemma_settled(old(self)@, kind@);
                }
                return i;
            }
        }
    }

    /// Adds a new open node of kind `kind` as the last child of `parent` and
    /// returns its index.
    pub fn add_node_to_parent(&mut self, parent: usize, kind: Kind) -> (idx: usize)
        requires
            parent < old(self)@.len(),
        ensures
            final(self)@ == attached(old(self)@, parent as int, kind@),
            idx == old(self)@.len(),
    {
        let val: usize = self.nodes.len();
        self.nodes.push(Node::new(kind));
        self.nodes[parent].blocks.push(val);
        assert(self@[parent as int].children =~= old(self)@[parent as int].children.push(
            val as int,
        ));
        assert(self@ =~= attached(old(self)@, parent as int, kind@));
        val
    }

    /// Adds a new open node of kind `kind` under the open node that can take
    /// it, closing the open nodes that it ends, and returns its index.
    pub fn add_node(&mut self, kind: Kind) -> (idx: usize)
        requires
            old(self).wf(),
            is_block_kind(kind@),
        ensures
            final(self)@ == added(old(self)@, kind@),
            idx == old(self)@.len(),
            idx == open_node(final(self)@, 0),
            final(self)@.len() == old(self)@.len() + 1,
            final(self).wf(),
            grows(old(self)@, final(self)@),
    {
        let parent: usize = self.get_open_parent_for(&kind);
        proof {
            lemma_settled(old(self)@, kind@);
            lemma_attached_wf(self@, parent as int, kind@);
            lemma_attached_open(self@, parent as int, kind@, 0);
            lemma_open_node_on_chain(self@, 0);
            lemma_attached_grows(self@, parent as int, kind@);
            lemma_grows_on(old(self)@, self@, attached(self@, parent as int, kind@));
        }
        self.add_node_to_parent(parent, kind)
    }

    /// Adds a closed text node that holds `text`.
    pub fn add_text_node(&mut self, text: String)
        requires
            old(self).wf(),
        ensures
            final(self)@ == with_text(old(self)@, text@),
            final(self)@.len() == old(self)@.len() + 1,
            final(self).wf(),
            grows(old(self)@, final(self)@),
    {
        let idx: usize = self.add_node(Kind::Text(text));
        proof {
            lemma_closed_grows(self@, idx as int);
            lemma_grows_on(old(self)@, self@, closed(self@, idx as int));
        }
        self.close_node(idx);
    }
}

} // verus!

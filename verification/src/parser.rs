//! The line dispatcher, the two matchers that parse their own lines again
//! (block quotes and list items), and the conversion of the finished arena
//! into a document.

use vstd::prelude::*;
use vstd::string::*;
use crate::arena::{
    added, attached, closed, fresh, grows, lemma_attached_grows, lemma_attached_wf,
    lemma_closed_wf, lemma_grows_on, lemma_grows_same, lemma_open_list_found,
    lemma_open_node_on_chain,
    lemma_other_marker, lemma_parent_list_found, list_accepts, open_node, parent_list,
    well_formed, with_text, Arena, Kind, KindModel, ListData, Nodes,
};
use crate::blocks::{
    fence_len, fence_nodes, fence_of, header_level, header_nodes, header_of, header_text,
    html_len, html_nodes, html_opening, in_paragraph, is_thematic, lemma_fence_len,
    lemma_html_len, setext_level, setext_nodes, thematic_nodes, try_fenced_code, try_header,
    try_raw_html, try_setext_header, try_thematic_break,
};
use crate::inline::{parse_inlines, scanned};
use crate::marker::{marker_close, marker_kind, marker_start, parse_marker};
use crate::materialize::{build_doc, forest};
use crate::pattern::{captures, group, groups_of, Groups, LEADING_SPACE, LIST_ITEM, QUOTE};
use crate::text::{
    blank, chars_of, copy_of, drop_prefix, is_blank, lines_of, split_lines, texts, trim,
    trimmed, without_prefix,
};
use crate::tree::{BlockModel, Doc, Marker};

verus! {

broadcast use {lemma_grows_on, lemma_grows_same};

/// The size of the lines from `idx` on: their characters, and one more for
/// each line.
pub open spec fn weight_from(lines: Seq<Seq<char>>, idx: int) -> nat
    decreases lines.len() - idx,
{
    if idx < 0 || idx >= lines.len() {
        0
    } else {
        lines[idx].len() + 1 + weight_from(lines, idx + 1)
    }
}

/// The length of the quote prefix of a line: white space, `>`, and at most
/// one character of white space. `None` for a line that is not quoted.
pub open spec fn quote_prefix(line: Seq<char>) -> Option<nat> {
    match groups_of(QUOTE@, line) {
        Some(g) => quote_from(g, line.len()),
        None => None,
    }
}

/// The length of the quote prefix that the groups of a quoted line give:
/// the length of group 1, which is at least one character of a line of
/// `width` characters.
pub open spec fn quote_from(g: Seq<Option<Seq<char>>>, width: nat) -> Option<nat> {
    let m = group(g, 1).len();
    if 1 <= m <= width {
        Some(m)
    } else {
        None
    }
}

/// The number of quoted lines in a row from line `idx` on.
pub open spec fn quote_len(lines: Seq<Seq<char>>, idx: int) -> nat
    decreases lines.len() - idx,
{
    if idx < 0 || idx >= lines.len() {
        0
    } else {
        match quote_prefix(lines[idx]) {
            Some(m) => 1 + quote_len(lines, idx + 1),
            None => 0,
        }
    }
}

/// The quoted lines in a row from line `idx` on, each without its prefix.
pub open spec fn quote_lines(lines: Seq<Seq<char>>, idx: int) -> Seq<Seq<char>>
    decreases lines.len() - idx,
{
    if idx < 0 || idx >= lines.len() {
        Seq::empty()
    } else {
        match quote_prefix(lines[idx]) {
            Some(m) => seq![without_prefix(lines[idx], m as int)] + quote_lines(lines, idx + 1),
            None => Seq::empty(),
        }
    }
}

/// A list item as its first line describes it.
pub struct Item {
    /// What a list would record of this item.
    pub data: ListData,
    /// How many characters the first line loses, and how far the lines that
    /// continue the item are indented at least.
    pub indent: nat,
    /// Whether nothing but white space follows the marker.
    pub blank: bool,
}

/// Whether a marker counts its items with digits or letters.
pub open spec fn is_ordered(marker: Marker) -> bool {
    marker is Numeric || marker is UpperAlpha || marker is LowerAlpha
}

/// The list item that a line begins, seen under an open paragraph or not.
///
/// The line must be a marker, spacing and the rest. Under an open paragraph
/// an item with nothing after its marker begins nothing, and neither does one
/// whose marker counts with digits or letters and does not start at 1.
pub open spec fn item_of(line: Seq<char>, in_paragraph: bool) -> Option<Item> {
    match groups_of(LIST_ITEM@, line) {
        Some(g) => item_from(g, line.len(), in_paragraph),
        None => None,
    }
}

/// The list item that the groups of its first line give: marker with the
/// white space before it, spacing and rest are groups 1 to 3 of a line of
/// `width` characters. Marker and spacing must fit in the line, and the
/// marker must not be empty.
pub open spec fn item_from(g: Seq<Option<Seq<char>>>, width: nat, in_paragraph: bool) -> Option<
    Item,
> {
    let marker = group(g, 1);
    let spacing = group(g, 2);
    let blank = is_blank(group(g, 3));
    let token = trim(marker);
    if !(1 <= marker.len() && marker.len() + spacing.len() <= width) {
        None
    } else if blank && in_paragraph {
        None
    } else if in_paragraph && is_ordered(marker_kind(token)) && marker_start(token) != 1 {
        None
    } else {
        Some(
            Item {
                data: ListData {
                    dist_to_marker: marker.len() as usize,
                    dist_after_marker: spacing.len() as usize,
                    marker: marker_kind(token),
                    close: marker_close(token),
                    start_value: marker_start(token),
                },
                indent: if blank {
                    marker.len()
                } else {
                    marker.len() + spacing.len()
                },
                blank,
            },
        )
    }
}

/// The length of the white space that a line starts with.
pub open spec fn leading_space(line: Seq<char>) -> Option<nat> {
    match groups_of(LEADING_SPACE@, line) {
        Some(g) => Some(group(g, 1).len()),
        None => None,
    }
}

/// Whether a line continues a list item: it is indented as far as the item
/// asks, or holds white space alone. A blank line right after the first line
/// of an item that has nothing after its marker continues nothing. `second`
/// says that the line is the one after the item's first.
pub open spec fn continues_item(item: Item, line: Seq<char>, second: bool) -> bool {
    match leading_space(line) {
        Some(lead) => continues_from(item, lead, line.len(), is_blank(line), second),
        None => false,
    }
}

/// Whether a line of `width` characters that starts with `lead` characters
/// of white space continues a list item.
pub open spec fn continues_from(item: Item, lead: nat, width: nat, blank: bool, second: bool) -> bool {
    !(lead < item.indent && lead != width) && !(blank && item.blank && second)
}

/// The number of lines in a row, from line `idx` on, that continue a list
/// item.
pub open spec fn item_more(item: Item, lines: Seq<Seq<char>>, idx: int, second: bool) -> nat
    decreases lines.len() - idx,
{
    if idx < 0 || idx >= lines.len() || !continues_item(item, lines[idx], second) {
        0
    } else {
        1 + item_more(item, lines, idx + 1, false)
    }
}

/// The number of lines that the list item beginning at line `idx` takes.
pub open spec fn item_len(item: Item, lines: Seq<Seq<char>>, idx: int) -> nat {
    1 + item_more(item, lines, idx + 1, true)
}

/// The lines of a list item: the first without marker and spacing, the
/// others as they are.
pub open spec fn item_lines(item: Item, lines: Seq<Seq<char>>, idx: int) -> Seq<Seq<char>> {
    seq![without_prefix(lines[idx], item.indent as int)] + lines.subrange(
        idx + 1,
        idx + item_len(item, lines, idx),
    )
}

/// The arena in which a new list item finds its list, and the index of that
/// list: the deepest open list that accepts the item or, where there is
/// none, a new list that records the item.
pub open spec fn item_list(a: Nodes, data: ListData) -> (Nodes, int) {
    match parent_list(a, 0, data) {
        Some(p) => (a, p),
        None => (added(a, KindModel::List(data)), a.len() as int),
    }
}

/// What the dispatcher does with a line.
pub enum Step {
    /// A blank line: ends an open paragraph.
    Blank,
    /// A setext underline under an open paragraph.
    Setext(usize),
    /// A thematic break.
    Thematic,
    /// An ATX header with its level and text.
    Header(usize, Seq<char>),
    /// The start of a raw HTML block.
    Html(crate::blocks::HtmlBlock),
    /// The opening fence of a code block.
    Code(crate::blocks::FenceModel),
    /// The first line of a block quote.
    Quote,
    /// The first line of a list item.
    Item(Item),
    /// Paragraph text.
    Text,
}

/// What the dispatcher does with line `idx`: the first that applies of blank
/// line, setext underline, thematic break, ATX header, raw HTML, fenced code,
/// block quote and list item, and paragraph text when none does.
pub open spec fn step_of(in_paragraph: bool, lines: Seq<Seq<char>>, idx: int) -> Step {
    let line = lines[idx];
    if is_blank(line) {
        Step::Blank
    } else if setext_level(line) is Some && in_paragraph {
        Step::Setext(setext_level(line)->0)
    } else if is_thematic(line) {
        Step::Thematic
    } else if header_of(line) is Some {
        Step::Header(header_level(line), header_text(line))
    } else if html_opening(line, in_paragraph) is Some {
        Step::Html(html_opening(line, in_paragraph)->0)
    } else if fence_of(line) is Some {
        Step::Code(fence_of(line)->0)
    } else if quote_len(lines, idx) > 0 {
        Step::Quote
    } else if item_of(line, in_paragraph) is Some {
        Step::Item(item_of(line, in_paragraph)->0)
    } else {
        Step::Text
    }
}

/// The number of lines that a step takes.
pub open spec fn step_len(step: Step, lines: Seq<Seq<char>>, idx: int) -> nat {
    match step {
        Step::Html(kind) => html_len(kind, lines, idx),
        Step::Code(fence) => 1 + fence_len(fence.marker, lines, idx + 1),
        Step::Quote => quote_len(lines, idx),
        Step::Item(item) => item_len(item, lines, idx),
        _ => 1,
    }
}

/// The arena with an open paragraph closed by a blank line.
pub open spec fn blank_nodes(a: Nodes) -> Nodes {
    if in_paragraph(a) {
        closed(a, open_node(a, 0))
    } else {
        a
    }
}

/// The arena with a line of paragraph text added: into the open paragraph
/// after a line feed, or into a new paragraph.
pub open spec fn text_nodes(a: Nodes, line: Seq<char>) -> Nodes {
    let b = if in_paragraph(a) {
        with_text(a, "\n"@)
    } else {
        added(a, KindModel::Paragraph)
    };
    scanned(b, trim(line))
}

/// The arena after the step at line `idx`.
pub open spec fn stepped(a: Nodes, lines: Seq<Seq<char>>, idx: int) -> Nodes
    decreases weight_from(lines, idx), 0nat,
    when 0 <= idx < lines.len()
    via stepped_decreases
{
    match step_of(in_paragraph(a), lines, idx) {
        Step::Blank => blank_nodes(a),
        Step::Setext(level) => setext_nodes(a, level),
        Step::Thematic => thematic_nodes(a),
        Step::Header(level, text) => header_nodes(a, level, text),
        Step::Html(kind) => html_nodes(a, kind, lines, idx),
        Step::Code(fence) => fence_nodes(a, fence, lines, idx),
        Step::Quote => closed(
            parsed(added(a, KindModel::Blockquote), quote_lines(lines, idx), 0),
            a.len() as int,
        ),
        Step::Item(item) => {
            let (b, list) = item_list(a, item.data);
            closed(
                parsed(attached(b, list, KindModel::ListElement), item_lines(item, lines, idx), 0),
                b.len() as int,
            )
        },
        Step::Text => text_nodes(a, lines[idx]),
    }
}

/// The arena after the lines from `idx` on have been dispatched, step by
/// step, each step starting where the one before it ended.
pub open spec fn parsed(a: Nodes, lines: Seq<Seq<char>>, idx: int) -> Nodes
    decreases weight_from(lines, idx), 1nat,
    via parsed_decreases
{
    if idx < 0 || idx >= lines.len() {
        a
    } else {
        parsed(
            stepped(a, lines, idx),
            lines,
            idx + step_len(step_of(in_paragraph(a), lines, idx), lines, idx),
        )
    }
}

/// The arena with the block quote added that starts at line `idx`: the
/// quoted lines, without their prefixes, are parsed under a new quote node,
/// which is closed after them.
pub open spec fn quote_nodes(a: Nodes, lines: Seq<Seq<char>>, idx: int) -> Nodes {
    closed(parsed(added(a, KindModel::Blockquote), quote_lines(lines, idx), 0), a.len() as int)
}

/// The arena with the list item added that starts at line `idx`: the lines
/// of the item are parsed under a new item node in the list of the item, and
/// the item node is closed after them.
pub open spec fn item_nodes(a: Nodes, item: Item, lines: Seq<Seq<char>>, idx: int) -> Nodes {
    let (b, list) = item_list(a, item.data);
    closed(
        parsed(attached(b, list, KindModel::ListElement), item_lines(item, lines, idx), 0),
        b.len() as int,
    )
}

#[via_fn]
proof fn stepped_decreases(a: Nodes, lines: Seq<Seq<char>>, idx: int) {
    match step_of(in_paragraph(a), lines, idx) {
        Step::Quote => {
            lemma_quote_weight(lines, idx);
        },
        Step::Item(item) => {
            lemma_item_weight(item, lines, idx);
        },
        _ => {},
    }
}

#[via_fn]
proof fn parsed_decreases(a: Nodes, lines: Seq<Seq<char>>, idx: int) {
    if 0 <= idx < lines.len() {
        lemma_step_len(in_paragraph(a), lines, idx);
        lemma_weight_skip(lines, idx, idx + step_len(step_of(in_paragraph(a), lines, idx), lines, idx));
    }
}

/// The size of the lines from a later line on is smaller.
pub proof fn lemma_weight_skip(lines: Seq<Seq<char>>, idx: int, to: int)
    requires
        0 <= idx <= to,
    ensures
        weight_from(lines, to) <= weight_from(lines, idx),
        idx < to && idx < lines.len() ==> weight_from(lines, to) < weight_from(lines, idx),
    decreases to - idx,
{
    if idx < to {
        lemma_weight_skip(lines, idx + 1, to);
    }
}

/// Putting a line in front adds its size.
pub proof fn lemma_weight_cons(first: Seq<char>, rest: Seq<Seq<char>>, idx: int)
    requires
        0 <= idx,
    ensures
        weight_from(seq![first] + rest, idx + 1) == weight_from(rest, idx),
    decreases rest.len() - idx,
{
    let all = seq![first] + rest;
    if idx < rest.len() {
        assert(all[idx + 1] == rest[idx]);
        lemma_weight_cons(first, rest, idx + 1);
    }
}

/// A run of lines taken out of a list of lines is no larger than the list
/// from the start of the run on.
pub proof fn lemma_weight_subrange(lines: Seq<Seq<char>>, from: int, to: int, k: int)
    requires
        0 <= from <= to <= lines.len(),
        0 <= k <= to - from,
    ensures
        weight_from(lines.subrange(from, to), k) <= weight_from(lines, from + k),
    decreases to - from - k,
{
    let sub = lines.subrange(from, to);
    if k < to - from {
        assert(sub[k] == lines[from + k]);
        lemma_weight_subrange(lines, from, to, k + 1);
    }
}

/// Quoted lines without their prefixes are smaller than the lines they were
/// taken from; by as much as there are lines, at least.
pub proof fn lemma_quote_weight(lines: Seq<Seq<char>>, idx: int)
    requires
        0 <= idx,
    ensures
        weight_from(quote_lines(lines, idx), 0) + quote_len(lines, idx) <= weight_from(lines, idx),
        quote_len(lines, idx) <= lines.len() - idx || quote_len(lines, idx) == 0,
        quote_lines(lines, idx).len() == quote_len(lines, idx),
    decreases lines.len() - idx,
{
    if idx < lines.len() {
        match quote_prefix(lines[idx]) {
            Some(m) => {
                lemma_quote_weight(lines, idx + 1);
                let first = without_prefix(lines[idx], m as int);
                let rest = quote_lines(lines, idx + 1);
                lemma_weight_cons(first, rest, 0);
                assert((seq![first] + rest)[0] == first);
            },
            None => {},
        }
    }
}

/// The lines that continue a list item are lines that exist.
pub proof fn lemma_item_more(item: Item, lines: Seq<Seq<char>>, idx: int, second: bool)
    requires
        0 <= idx <= lines.len(),
    ensures
        item_more(item, lines, idx, second) <= lines.len() - idx,
    decreases lines.len() - idx,
{
    if idx < lines.len() && continues_item(item, lines[idx], second) {
        lemma_item_more(item, lines, idx + 1, false);
    }
}

/// The lines of a list item are smaller than the lines they were taken
/// from, when the first of them loses at least one character.
pub proof fn lemma_item_weight(item: Item, lines: Seq<Seq<char>>, idx: int)
    requires
        0 <= idx < lines.len(),
        1 <= item.indent <= lines[idx].len(),
    ensures
        weight_from(item_lines(item, lines, idx), 0) < weight_from(lines, idx),
{
    let n = item_len(item, lines, idx);
    lemma_item_more(item, lines, idx + 1, true);
    let first = without_prefix(lines[idx], item.indent as int);
    let rest = lines.subrange(idx + 1, idx + n);
    lemma_weight_cons(first, rest, 0);
    assert((seq![first] + rest)[0] == first);
    lemma_weight_subrange(lines, idx + 1, idx + n, 0);
}

/// The numbers of lines that the steps of the dispatcher take, one after the
/// other, from line `idx` on.
pub open spec fn step_lengths(a: Nodes, lines: Seq<Seq<char>>, idx: int) -> Seq<nat>
    decreases weight_from(lines, idx),
    via step_lengths_decreases
{
    if idx < 0 || idx >= lines.len() {
        Seq::empty()
    } else {
        seq![step_len(step_of(in_paragraph(a), lines, idx), lines, idx)] + step_lengths(
            stepped(a, lines, idx),
            lines,
            idx + step_len(step_of(in_paragraph(a), lines, idx), lines, idx),
        )
    }
}

#[via_fn]
proof fn step_lengths_decreases(a: Nodes, lines: Seq<Seq<char>>, idx: int) {
    if 0 <= idx < lines.len() {
        lemma_step_len(in_paragraph(a), lines, idx);
        lemma_weight_skip(lines, idx, idx + step_len(step_of(in_paragraph(a), lines, idx), lines, idx));
    }
}

/// The sum of a list of numbers.
pub open spec fn total(s: Seq<nat>) -> nat
    decreases s.len(),
{
    if s.len() == 0 {
        0
    } else {
        s[0] + total(s.drop_first())
    }
}

/// Totality of the dispatcher: from any line on, the steps take at least
/// one line each, and together as many lines as there are. As each step
/// starts where the one before it ended, no line is skipped and none is
/// taken twice.
pub proof fn lemma_lines_taken_once(a: Nodes, lines: Seq<Seq<char>>, idx: int)
    requires
        0 <= idx <= lines.len(),
    ensures
        forall|k: int|
            0 <= k < step_lengths(a, lines, idx).len() ==> 1 <= #[trigger] step_lengths(
                a,
                lines,
                idx,
            )[k],
        total(step_lengths(a, lines, idx)) == lines.len() - idx,
    decreases lines.len() - idx,
{
    if idx < lines.len() {
        let n = step_len(step_of(in_paragraph(a), lines, idx), lines, idx);
        lemma_step_len(in_paragraph(a), lines, idx);
        let rest = step_lengths(stepped(a, lines, idx), lines, idx + n);
        lemma_lines_taken_once(stepped(a, lines, idx), lines, idx + n);
        let all = step_lengths(a, lines, idx);
        assert(all == seq![n] + rest);
        assert(all.drop_first() =~= rest);
        assert forall|k: int| 0 <= k < all.len() implies 1 <= #[trigger] all[k] by {
            if k > 0 {
                assert(all[k] == rest[k - 1]);
            }
        }
    }
}

/// Every step takes at least one line and never a line beyond the last.
pub proof fn lemma_step_len(in_paragraph: bool, lines: Seq<Seq<char>>, idx: int)
    requires
        0 <= idx < lines.len(),
    ensures
        1 <= step_len(step_of(in_paragraph, lines, idx), lines, idx) <= lines.len() - idx,
{
    match step_of(in_paragraph, lines, idx) {
        Step::Html(kind) => {
            lemma_html_len(kind, lines, idx);
        },
        Step::Code(fence) => {
            lemma_fence_len(fence.marker, lines, idx + 1);
        },
        Step::Quote => {
            lemma_quote_weight(lines, idx);
        },
        Step::Item(item) => {
            lemma_item_more(item, lines, idx + 1, true);
        },
        _ => {},
    }
}

/// List grouping: an item that the deepest open node, a list, accepts joins
/// that list, and no list is added; an item whose marker no open list has
/// gets a new list that records it.
pub proof fn lemma_list_grouping(a: Nodes, data: ListData)
    requires
        well_formed(a),
    ensures
        0 < open_node(a, 0) && a[open_node(a, 0)].kind is List && list_accepts(
            a[open_node(a, 0)].kind->List_0,
            data,
        ) ==> item_list(a, data) == (a, open_node(a, 0)),
        (forall|p: int|
            0 <= p < a.len() && (#[trigger] a[p]).open && a[p].kind is List ==> a[p].kind->List_0.marker
                != data.marker) ==> item_list(a, data) == (
            added(a, KindModel::List(data)),
            a.len() as int,
        ),
{
    if 0 < open_node(a, 0) && a[open_node(a, 0)].kind is List && list_accepts(
        a[open_node(a, 0)].kind->List_0,
        data,
    ) {
        lemma_open_list_found(a, 0, data);
    }
    if forall|p: int|
        0 <= p < a.len() && (#[trigger] a[p]).open && a[p].kind is List ==> a[p].kind->List_0.marker
            != data.marker {
        lemma_other_marker(a, 0, data);
    }
}

/// Whether a line is a marker that counts with digits or letters, spacing
/// and text: the first line of an item of an ordered list.
pub open spec fn is_ordered_item(line: Seq<char>) -> bool {
    match groups_of(LIST_ITEM@, line) {
        Some(g) => 1 <= group(g, 1).len() && group(g, 1).len() + group(g, 2).len() <= line.len()
            && !is_blank(group(g, 3)) && is_ordered(marker_kind(trim(group(g, 1)))),
        None => false,
    }
}

/// The number at which the marker of a line starts its list.
pub open spec fn item_start(line: Seq<char>) -> u32 {
    match groups_of(LIST_ITEM@, line) {
        Some(g) => marker_start(trim(group(g, 1))),
        None => 1,
    }
}

/// Whether a line is one of the blocks that the dispatcher tries before
/// list items.
pub open spec fn is_earlier_block(in_paragraph: bool, lines: Seq<Seq<char>>, idx: int) -> bool {
    let line = lines[idx];
    is_blank(line) || (setext_level(line) is Some && in_paragraph) || is_thematic(line)
        || header_of(line) is Some || html_opening(line, in_paragraph) is Some || fence_of(line)
        is Some || quote_len(lines, idx) > 0
}

/// The paragraph-interrupt rule: under an open paragraph, a line that is
/// the first of an ordered item and no earlier block begins an item if its
/// marker starts at 1; if not, it is text of the paragraph, added after a
/// line feed.
pub proof fn lemma_paragraph_interrupt(a: Nodes, lines: Seq<Seq<char>>, idx: int)
    requires
        0 <= idx < lines.len(),
        in_paragraph(a),
        is_ordered_item(lines[idx]),
        !is_earlier_block(true, lines, idx),
    ensures
        item_start(lines[idx]) == 1 ==> step_of(true, lines, idx) is Item,
        item_start(lines[idx]) != 1 ==> item_of(lines[idx], true) is None && step_of(
            true,
            lines,
            idx,
        ) is Text && stepped(a, lines, idx) == scanned(with_text(a, "\n"@), trim(lines[idx])),
{
}

/// Reads the length of the quote prefix from the groups of a quoted line
/// of `width` characters.
pub fn quote_width(g: &Groups, width: usize) -> (m: Option<usize>)
    ensures
        match m {
            Some(v) => quote_from(g@, width as nat) == Some(v as nat),
            None => quote_from(g@, width as nat) is None,
        },
{
    let m: usize = g.get(1).len();
    if 1 <= m && m <= width {
        Some(m)
    } else {
        None
    }
}

fn quote_prefix_of(line: &Vec<char>) -> (m: Option<usize>)
    ensures
        match m {
            Some(v) => quote_prefix(line@) == Some(v as nat),
            None => quote_prefix(line@) is None,
        },
{
    match captures(QUOTE, line) {
        Some(g) => quote_width(&g, line.len()),
        None => None,
    }
}

/// The first line of a list item, read.
pub struct ItemHead {
    pub data: ListData,
    pub indent: usize,
    pub blank: bool,
}

impl View for ItemHead {
    type V = Item;

    open spec fn view(&self) -> Item {
        Item { data: self.data, indent: self.indent as nat, blank: self.blank }
    }
}

/// Reads a list item from the groups of its first line, a line of `width`
/// characters.
pub fn item_parts(g: &Groups, width: usize, in_paragraph: bool) -> (head: Option<ItemHead>)
    ensures
        match head {
            Some(h) => item_from(g@, width as nat, in_paragraph) == Some(h@),
            None => item_from(g@, width as nat, in_paragraph) is None,
        },
{
    let marker = g.get(1);
    let m: usize = marker.len();
    let sp: usize = g.get(2).len();
    let is_blank: bool = blank(&g.get(3));
    let token = trimmed(&marker);
    let (kind, close, start) = parse_marker(&token);
    if !(1 <= m && m <= width && sp <= width - m) {
        return None;
    }
    if is_blank && in_paragraph {
        return None;
    }
    let ordered: bool = match kind {
        Marker::Numeric | Marker::UpperAlpha | Marker::LowerAlpha => true,
        _ => false,
    };
    if in_paragraph && ordered && start != 1 {
        return None;
    }
    Some(
        ItemHead {
            data: ListData {
                dist_to_marker: m,
                dist_after_marker: sp,
                marker: kind,
                close,
                start_value: start,
            },
            indent: if is_blank {
                m
            } else {
                m + sp
            },
            blank: is_blank,
        },
    )
}

fn item_head(line: &Vec<char>, in_paragraph: bool) -> (head: Option<ItemHead>)
    ensures
        match head {
            Some(h) => item_of(line@, in_paragraph) == Some(h@),
            None => item_of(line@, in_paragraph) is None,
        },
{
    match captures(LIST_ITEM, line) {
        Some(g) => item_parts(&g, line.len(), in_paragraph),
        None => None,
    }
}

/// Tells whether a line of `width` characters that starts with `lead`
/// characters of white space continues a list item.
pub fn item_goes_on(head: &ItemHead, lead: usize, width: usize, blank: bool, second: bool) -> (b:
    bool)
    ensures
        b == continues_from(head@, lead as nat, width as nat, blank, second),
{
    if lead < head.indent && lead != width {
        false
    } else if head.blank && second && blank {
        false
    } else {
        true
    }
}

fn item_continues(head: &ItemHead, line: &Vec<char>, second: bool) -> (b: bool)
    ensures
        b == continues_item(head@, line@, second),
{
    match captures(LEADING_SPACE, line) {
        Some(g) => item_goes_on(head, g.get(1).len(), line.len(), blank(line), second),
        None => false,
    }
}

/// Tries the lines from `idx` on as a block quote: the quoted lines in a row
/// are parsed, without their prefixes, as the content of the quote. Returns
/// the number of lines taken.
pub fn try_blockquote(arena: &mut Arena, lines: &Vec<Vec<char>>, idx: usize) -> (consumed: Option<
    usize,
>)
    requires
        old(arena).wf(),
        idx < lines.len(),
    ensures
        quote_len(texts(lines@), idx as int) > 0 ==> consumed is Some && consumed->0 == quote_len(
            texts(lines@),
            idx as int,
        ) && final(arena)@ == quote_nodes(old(arena)@, texts(lines@), idx as int),
        quote_len(texts(lines@), idx as int) == 0 ==> consumed is None && final(arena)@ == old(
            arena,
        )@,
        consumed is Some ==> 1 <= consumed->0 <= lines.len() - idx,
        final(arena).wf(),
        grows(old(arena)@, final(arena)@),
    decreases weight_from(texts(lines@), idx as int), 0nat,
{
    let n: usize = lines.len();
    let ghost all = texts(lines@);
    let mut sub: Vec<Vec<char>> = Vec::new();
    let mut k: usize = idx;
    let mut more: bool = true;
    while more && k < n
        invariant
            idx <= k <= n == lines.len(),
            all == texts(lines@),
            sub@.len() == k - idx,
            quote_len(all, idx as int) == (k - idx) + quote_len(all, k as int),
            quote_lines(all, idx as int) == texts(sub@) + quote_lines(all, k as int),
            !more ==> k < n && quote_prefix(all[k as int]) is None,
        decreases n - k + (if more { 1int } else { 0int }),
    {
        match quote_prefix_of(&lines[k]) {
            Some(m) => {
                let ghost before = texts(sub@);
                sub.push(drop_prefix(&lines[k], m));
                assert(texts(sub@) == before + seq![without_prefix(all[k as int], m as int)]);
                assert(before + (seq![without_prefix(all[k as int], m as int)] + quote_lines(
                    all,
                    k + 1,
                )) == before + seq![without_prefix(all[k as int], m as int)] + quote_lines(
                    all,
                    k + 1,
                ));
                k += 1;
            },
            None => {
                more = false;
            },
        }
    }
    assert(quote_lines(all, k as int) == Seq::<Seq<char>>::empty());
    assert(texts(sub@) + Seq::<Seq<char>>::empty() == texts(sub@));
    if k == idx {
        return None;
    }
    proof {
        lemma_quote_weight(all, idx as int);
    }
    let node: usize = arena.add_node(Kind::Blockquote);
    parse_lines(arena, &sub);
    proof {
        lemma_closed_wf(arena@, node as int);
    }
    arena.close_node(node);
    Some(k - idx)
}

/// Tries the lines from `idx` on as a list item: the first line without its
/// marker, and the lines that continue it, are parsed as the content of the
/// item, which joins the open list that accepts it or starts a list of its
/// own. Returns the number of lines taken.
pub fn try_list(arena: &mut Arena, lines: &Vec<Vec<char>>, idx: usize) -> (consumed: Option<usize>)
    requires
        old(arena).wf(),
        idx < lines.len(),
    ensures
        match item_of(texts(lines@)[idx as int], in_paragraph(old(arena)@)) {
            Some(item) => consumed is Some && consumed->0 == item_len(
                item,
                texts(lines@),
                idx as int,
            ) && final(arena)@ == item_nodes(old(arena)@, item, texts(lines@), idx as int),
            None => consumed is None && final(arena)@ == old(arena)@,
        },
        consumed is Some ==> 1 <= consumed->0 <= lines.len() - idx,
        final(arena).wf(),
        grows(old(arena)@, final(arena)@),
    decreases weight_from(texts(lines@), idx as int), 0nat,
{
    let n: usize = lines.len();
    let ghost all = texts(lines@);
    let open_idx: usize = arena.find_open_node(0);
    let head = match item_head(&lines[idx], arena.is_paragraph(open_idx)) {
        Some(head) => head,
        None => {
            return None;
        },
    };
    let mut sub: Vec<Vec<char>> = Vec::new();
    sub.push(drop_prefix(&lines[idx], head.indent));
    let mut k: usize = idx + 1;
    let mut more: bool = true;
    assert(texts(sub@) == seq![without_prefix(all[idx as int], head@.indent as int)]
        + all.subrange(idx + 1, k as int));
    while more && k < n
        invariant
            idx < k <= n == lines.len(),
            all == texts(lines@),
            item_more(head@, all, idx + 1, true) == (k - idx - 1) + item_more(
                head@,
                all,
                k as int,
                k == idx + 1,
            ),
            texts(sub@) == seq![without_prefix(all[idx as int], head@.indent as int)]
                + all.subrange(idx + 1, k as int),
            !more ==> k < n && !continues_item(head@, all[k as int], k == idx + 1),
        decreases n - k + (if more { 1int } else { 0int }),
    {
        if item_continues(&head, &lines[k], k == idx + 1) {
            let ghost before = texts(sub@);
            sub.push(copy_of(&lines[k]));
            assert(texts(sub@) == before + seq![all[k as int]]);
            assert(all.subrange(idx + 1, k + 1) == all.subrange(idx + 1, k as int) + seq![
                all[k as int],
            ]);
            assert(seq![without_prefix(all[idx as int], head@.indent as int)] + (all.subrange(
                idx + 1,
                k as int,
            ) + seq![all[k as int]]) == seq![without_prefix(all[idx as int], head@.indent as int)]
                + all.subrange(idx + 1, k as int) + seq![all[k as int]]);
            k += 1;
        } else {
            more = false;
        }
    }
    assert(item_more(head@, all, k as int, k == idx + 1) == 0);
    assert(texts(sub@) == item_lines(head@, all, idx as int));
    proof {
        lemma_item_weight(head@, all, idx as int);
    }
    let parent: usize = match arena.find_parent_list(0, &head.data) {
        Some(p) => p,
        None => arena.add_node(Kind::List(head.data)),
    };
    let ghost listed = arena@;
    assert(listed == item_list(old(arena)@, head@.data).0);
    assert(parent == item_list(old(arena)@, head@.data).1);
    proof {
        if parent_list(old(arena)@, 0, head@.data) is Some {
            lemma_parent_list_found(old(arena)@, 0, head@.data);
        } else {
            lemma_open_node_on_chain(arena@, 0);
        }
        lemma_attached_wf(arena@, parent as int, KindModel::ListElement);
        lemma_attached_grows(arena@, parent as int, KindModel::ListElement);
    }
    let li: usize = arena.add_node_to_parent(parent, Kind::ListElement);
    parse_lines(arena, &sub);
    proof {
        lemma_closed_wf(arena@, li as int);
    }
    arena.close_node(li);
    Some(k - idx)
}

/// Dispatches the lines one step after the other and adds what they hold to
/// the arena.
pub fn parse_lines(arena: &mut Arena, lines: &Vec<Vec<char>>)
    requires
        old(arena).wf(),
    ensures
        final(arena)@ == parsed(old(arena)@, texts(lines@), 0),
        final(arena).wf(),
        grows(old(arena)@, final(arena)@),
    decreases weight_from(texts(lines@), 0), 1nat,
{
    let n: usize = lines.len();
    let ghost all = texts(lines@);
    let mut idx: usize = 0;
    while idx < n
        invariant
            idx <= n == lines.len(),
            all == texts(lines@),
            arena.wf(),
            grows(old(arena)@, arena@),
            parsed(arena@, all, idx as int) == parsed(old(arena)@, all, 0),
        decreases n - idx,
    {
        let ghost before = arena@;
        let ghost step = step_of(in_paragraph(before), all, idx as int);
        proof {
            lemma_step_len(in_paragraph(before), all, idx as int);
            lemma_weight_skip(all, 0, idx as int);
            lemma_quote_weight(all, idx as int);
        }
        let ghost at = idx as int;
        let line = &lines[idx];
        assert(line@ == all[at]);
        if blank(line) {
            let node_idx: usize = arena.find_open_node(0);
            if arena.is_paragraph(node_idx) {
                proof {
                    lemma_closed_wf(arena@, node_idx as int);
                }
                arena.close_node(node_idx);
            }
            idx += 1;
        } else if try_setext_header(arena, line) {
            idx += 1;
        } else if try_thematic_break(arena, line) {
            idx += 1;
        } else if try_header(arena, line) {
            idx += 1;
        } else {
            match try_raw_html(arena, lines, idx) {
                Some(consumed) => {
                    idx += consumed;
                },
                None => match try_fenced_code(arena, lines, idx) {
                    Some(consumed) => {
                        idx += consumed;
                    },
                    None => match try_blockquote(arena, lines, idx) {
                        Some(consumed) => {
                            idx += consumed;
                        },
                        None => match try_list(arena, lines, idx) {
                            Some(consumed) => {
                                idx += consumed;
                            },
                            None => {
                                let node_idx: usize = arena.find_open_node(0);
                                if arena.is_paragraph(node_idx) {
                                    arena.add_text_node(String::from_str("\n"));
                                } else {
                                    arena.add_node(Kind::Paragraph);
                                }
                                parse_inlines(arena, &trimmed(line));
                                idx += 1;
                            },
                        },
                    },
                },
            }
        }
        assert(idx == at + step_len(step, all, at));
        assert(arena@ == stepped(before, all, at));
    }
}

/// The document that a text holds.
pub open spec fn document(text: Seq<char>) -> Seq<BlockModel> {
    forest(parsed(fresh(), lines_of(text), 0))
}

/// Turns a text into a document.
pub struct Parser {
    buf: Vec<char>,
}

impl Parser {
    /// The text that the parser reads.
    pub closed spec fn text(&self) -> Seq<char> {
        self.buf@
    }

    /// A parser for the text `buf`.
    pub fn new(buf: &str) -> (parser: Parser)
        ensures
            parser.text() == buf@,
    {
        Parser { buf: chars_of(buf) }
    }

    /// Parses the text and returns the document. Each call builds the
    /// document in an arena of its own, which does not outlive the call.
    pub fn parse(&mut self) -> (doc: Doc)
        ensures
            final(self).text() == old(self).text(),
            doc@ == document(old(self).text()),
    {
        let lines = split_lines(&self.buf);
        let mut arena = Arena::new();
        parse_lines(&mut arena, &lines);
        build_doc(&arena)
    }
}

} // verus!

//! The block matchers that take their lines as they are: headers, thematic
//! breaks, raw HTML and fenced code.

use vstd::prelude::*;
use vstd::string::*;
use crate::arena::{
    added, closed, grows, lemma_closed_wf, lemma_grows_on, lemma_grows_same,
    lemma_retagged_grows, lemma_retagged_wf, open_node, retagged, with_text, Arena, Kind,
    KindModel, Nodes,
};
use crate::inline::{parse_inlines, scanned};
use crate::pattern::{
    accepts, captures, group, groups_of, has_group, is_match, Groups, BLANK, CDATA_CLOSE,
    CDATA_OPEN, COMMENT_CLOSE, COMMENT_OPEN, CUSTOM_CLOSE, CUSTOM_OPEN, DECLARATION_CLOSE,
    DECLARATION_OPEN, ELEMENT_OPEN, FENCE_CLOSE, FENCE_OPEN, HEADER, INSTRUCTION_CLOSE,
    INSTRUCTION_OPEN, SETEXT, THEMATIC, VERBATIM_CLOSE, VERBATIM_OPEN,
};
use crate::text::{is_space, string_of, subvec, text_of, texts, trim, trimmed};

verus! {

broadcast use {lemma_grows_on, lemma_grows_same};

/// Whether the deepest open node of the arena is a paragraph.
pub open spec fn in_paragraph(a: Nodes) -> bool {
    a[open_node(a, 0)].kind is Paragraph
}

/// The first character of a text.
pub open spec fn first_char(s: Seq<char>) -> Option<char> {
    if s.len() > 0 {
        Some(s[0])
    } else {
        None
    }
}

fn first_of(chars: &Vec<char>) -> (c: Option<char>)
    ensures
        c == first_char(chars@),
{
    if chars.len() > 0 {
        Some(chars[0])
    } else {
        None
    }
}

fn same_char(a: Option<char>, b: Option<char>) -> (r: bool)
    ensures
        r == (a == b),
{
    match a {
        Some(x) => match b {
            Some(y) => x == y,
            None => false,
        },
        None => b.is_none(),
    }
}

fn contains_char(chars: &Vec<char>, c: char) -> (b: bool)
    ensures
        b == chars@.contains(c),
{
    let mut i: usize = 0;
    while i < chars.len()
        invariant
            i <= chars.len(),
            forall|j: int| 0 <= j < i ==> chars@[j] != c,
        decreases chars.len() - i,
    {
        if chars[i] == c {
            return true;
        }
        i += 1;
    }
    false
}

/// A text without the run of `c` that it starts with.
pub open spec fn without_leading(s: Seq<char>, c: char) -> Seq<char>
    decreases s.len(),
{
    if s.len() > 0 && s[0] == c {
        without_leading(s.drop_first(), c)
    } else {
        s
    }
}

fn strip_leading(chars: &Vec<char>, c: char) -> (v: Vec<char>)
    ensures
        v@ == without_leading(chars@, c),
{
    let n: usize = chars.len();
    let mut from: usize = 0;
    assert(chars@.subrange(0, n as int) == chars@);
    while from < n && chars[from] == c
        invariant
            from <= n == chars.len(),
            without_leading(chars@, c) == without_leading(chars@.subrange(from as int, n as int), c),
        decreases n - from,
    {
        assert(chars@.subrange(from as int, n as int).drop_first() == chars@.subrange(
            from + 1,
            n as int,
        ));
        from += 1;
    }
    subvec(chars, from, n)
}

/// The header level that a setext underline gives: 2 for dashes, 1 for
/// equals signs; `None` for a line that is no underline.
pub open spec fn setext_level(line: Seq<char>) -> Option<usize> {
    match groups_of(SETEXT@, line) {
        Some(g) => Some(setext_from(g)),
        None => None,
    }
}

/// The header level that the groups of a setext underline give: 2 where the
/// underline, group 1, starts with a dash, and 1 otherwise.
pub open spec fn setext_from(g: Seq<Option<Seq<char>>>) -> usize {
    if first_char(trim(group(g, 1))) == Some('-') {
        2
    } else {
        1
    }
}

/// Reads the header level from the groups of a setext underline.
pub fn setext_of(g: &Groups) -> (level: usize)
    ensures
        level == setext_from(g@),
{
    let marker = trimmed(&g.get(1));
    if same_char(first_of(&marker), Some('-')) {
        2
    } else {
        1
    }
}

/// The arena after an underline has turned the open paragraph into a header
/// of `level` and closed it.
pub open spec fn setext_nodes(a: Nodes, level: usize) -> Nodes {
    let i = open_node(a, 0);
    closed(retagged(a, i, KindModel::Header(level)), i)
}

/// Tries a line as a setext underline. It is one only under an open
/// paragraph, which then becomes a closed header.
pub fn try_setext_header(arena: &mut Arena, line: &Vec<char>) -> (taken: bool)
    requires
        old(arena).wf(),
    ensures
        taken == (setext_level(line@) is Some && in_paragraph(old(arena)@)),
        taken ==> final(arena)@ == setext_nodes(old(arena)@, setext_level(line@)->0),
        !taken ==> final(arena)@ == old(arena)@,
        final(arena).wf(),
        final(arena)@.len() == old(arena)@.len(),
        grows(old(arena)@, final(arena)@),
{
    match captures(SETEXT, line) {
        Some(g) => {
            let node_idx: usize = arena.find_open_node(0);
            if arena.is_paragraph(node_idx) {
                let level: usize = setext_of(&g);
                proof {
                    lemma_retagged_grows(arena@, node_idx as int, level);
                    lemma_retagged_wf(arena@, node_idx as int, KindModel::Header(level));
                    lemma_closed_wf(
                        retagged(arena@, node_idx as int, KindModel::Header(level)),
                        node_idx as int,
                    );
                }
                arena.retag(node_idx, Kind::Header(level));
                arena.close_node(node_idx);
                true
            } else {
                false
            }
        },
        None => false,
    }
}

/// Whether a line is a thematic break.
pub open spec fn is_thematic(line: Seq<char>) -> bool {
    accepts(THEMATIC@, line)
}

/// The arena with a thematic break added and closed.
pub open spec fn thematic_nodes(a: Nodes) -> Nodes {
    closed(added(a, KindModel::ThematicBreak), a.len() as int)
}

/// Tries a line as a thematic break.
pub fn try_thematic_break(arena: &mut Arena, line: &Vec<char>) -> (taken: bool)
    requires
        old(arena).wf(),
    ensures
        taken == is_thematic(line@),
        taken ==> final(arena)@ == thematic_nodes(old(arena)@),
        !taken ==> final(arena)@ == old(arena)@,
        final(arena).wf(),
        grows(old(arena)@, final(arena)@),
{
    if is_match(THEMATIC, line) {
        let node_idx: usize = arena.add_node(Kind::ThematicBreak);
        proof {
            lemma_closed_wf(arena@, node_idx as int);
        }
        arena.close_node(node_idx);
        true
    } else {
        false
    }
}

/// The level and the text of an ATX header: the number of `#` that open the
/// line, one to six, and the text between them and the closing run of `#`.
pub open spec fn header_of(line: Seq<char>) -> Option<(usize, Seq<char>)> {
    match groups_of(HEADER@, line) {
        Some(g) => header_from(g),
        None => None,
    }
}

/// The level and the text that the groups of an ATX header give: the length
/// of group 1, which must be from 1 to 6, and group 3 without the `#` that
/// it starts with.
pub open spec fn header_from(g: Seq<Option<Seq<char>>>) -> Option<(usize, Seq<char>)> {
    if 1 <= group(g, 1).len() <= 6 {
        Some(
            (
                group(g, 1).len() as usize,
                if has_group(g, 3) {
                    without_leading(group(g, 3), '#')
                } else {
                    Seq::empty()
                },
            ),
        )
    } else {
        None
    }
}

/// Reads level and text from the groups of an ATX header.
pub fn header_parts(g: &Groups) -> (parts: Option<(usize, Vec<char>)>)
    ensures
        match parts {
            Some(p) => header_from(g@) == Some((p.0, p.1@)),
            None => header_from(g@) is None,
        },
{
    let level: usize = g.get(1).len();
    if level < 1 || level > 6 {
        return None;
    }
    let text: Vec<char> = if g.has(3) {
        strip_leading(&g.get(3), '#')
    } else {
        Vec::new()
    };
    Some((level, text))
}

/// The level of the ATX header that a line is.
pub open spec fn header_level(line: Seq<char>) -> usize {
    match header_of(line) {
        Some(h) => h.0,
        None => 0,
    }
}

/// The text of the ATX header that a line is.
pub open spec fn header_text(line: Seq<char>) -> Seq<char> {
    match header_of(line) {
        Some(h) => h.1,
        None => Seq::empty(),
    }
}

/// The arena with a header of `level` added, its text scanned into it, and
/// the header closed.
pub open spec fn header_nodes(a: Nodes, level: usize, text: Seq<char>) -> Nodes {
    closed(scanned(added(a, KindModel::Header(level)), text), a.len() as int)
}

/// Tries a line as an ATX header.
pub fn try_header(arena: &mut Arena, line: &Vec<char>) -> (taken: bool)
    requires
        old(arena).wf(),
    ensures
        taken == header_of(line@) is Some,
        taken ==> final(arena)@ == header_nodes(
            old(arena)@,
            header_level(line@),
            header_text(line@),
        ),
        !taken ==> final(arena)@ == old(arena)@,
        final(arena).wf(),
        grows(old(arena)@, final(arena)@),
{
    match captures(HEADER, line) {
        Some(g) => match header_parts(&g) {
            Some((level, text)) => {
                let node_idx: usize = arena.add_node(Kind::Header(level));
                parse_inlines(arena, &text);
                proof {
                    lemma_closed_wf(arena@, node_idx as int);
                }
                arena.close_node(node_idx);
                true
            },
            None => false,
        },
        None => false,
    }
}

/// The kinds of raw HTML block, in the order in which an opening line is
/// tried against them.
#[derive(Copy, Clone, Debug, PartialEq, Eq, Structural)]
pub enum HtmlBlock {
    /// A script, pre or style element; ends with its closing tag.
    Verbatim,
    /// A comment; ends with `-->`.
    Comment,
    /// A processing instruction; ends with `?>`.
    Instruction,
    /// A declaration; ends with `>`.
    Declaration,
    /// A CDATA section; ends with `]]>`.
    Cdata,
    /// A tag of a block-level element; ends with a blank line.
    Element,
    /// A tag of any other element, alone on its line; ends with a blank line.
    Custom,
}

/// The kind of raw HTML block that a line opens. The first kind whose opening
/// pattern accepts the line wins. A tag of an element that is not block-level
/// opens nothing inside a paragraph.
pub open spec fn html_opening(line: Seq<char>, in_paragraph: bool) -> Option<HtmlBlock> {
    if accepts(VERBATIM_OPEN@, line) {
        Some(HtmlBlock::Verbatim)
    } else if accepts(COMMENT_OPEN@, line) {
        Some(HtmlBlock::Comment)
    } else if accepts(INSTRUCTION_OPEN@, line) {
        Some(HtmlBlock::Instruction)
    } else if accepts(DECLARATION_OPEN@, line) {
        Some(HtmlBlock::Declaration)
    } else if accepts(CDATA_OPEN@, line) {
        Some(HtmlBlock::Cdata)
    } else if accepts(ELEMENT_OPEN@, line) {
        Some(HtmlBlock::Element)
    } else if (accepts(CUSTOM_OPEN@, line) || accepts(CUSTOM_CLOSE@, line)) && !in_paragraph {
        Some(HtmlBlock::Custom)
    } else {
        None
    }
}

/// The pattern of the line that ends a raw HTML block.
pub open spec fn html_end(kind: HtmlBlock) -> Seq<char> {
    match kind {
        HtmlBlock::Verbatim => VERBATIM_CLOSE@,
        HtmlBlock::Comment => COMMENT_CLOSE@,
        HtmlBlock::Instruction => INSTRUCTION_CLOSE@,
        HtmlBlock::Declaration => DECLARATION_CLOSE@,
        HtmlBlock::Cdata => CDATA_CLOSE@,
        HtmlBlock::Element => BLANK@,
        HtmlBlock::Custom => BLANK@,
    }
}

/// Whether the line that ends a raw HTML block belongs to its text: only the
/// closing tag of a script, pre or style element does.
pub open spec fn keeps_end(kind: HtmlBlock) -> bool {
    kind is Verbatim
}

/// The number of lines, from line `idx` on, that a raw HTML block takes: all
/// up to and including the first that ends it, or all that are left.
pub open spec fn html_len(kind: HtmlBlock, lines: Seq<Seq<char>>, idx: int) -> nat
    decreases lines.len() - idx,
{
    if idx < 0 || idx >= lines.len() {
        0
    } else if accepts(html_end(kind), lines[idx]) {
        1
    } else {
        1 + html_len(kind, lines, idx + 1)
    }
}

/// The arena with a line and a line feed added as texts.
pub open spec fn with_line(a: Nodes, line: Seq<char>) -> Nodes {
    with_text(with_text(a, line), "\n"@)
}

/// The arena after the lines of a raw HTML block, from line `idx` on, have
/// been added as texts.
pub open spec fn html_body(a: Nodes, kind: HtmlBlock, lines: Seq<Seq<char>>, idx: int) -> Nodes
    decreases lines.len() - idx,
{
    if idx < 0 || idx >= lines.len() {
        a
    } else if accepts(html_end(kind), lines[idx]) {
        if keeps_end(kind) {
            with_line(a, lines[idx])
        } else {
            a
        }
    } else {
        html_body(with_line(a, lines[idx]), kind, lines, idx + 1)
    }
}

/// The arena with a raw HTML block added that starts at line `idx`, filled
/// and closed.
pub open spec fn html_nodes(a: Nodes, kind: HtmlBlock, lines: Seq<Seq<char>>, idx: int) -> Nodes {
    closed(html_body(added(a, KindModel::RawHtml), kind, lines, idx), a.len() as int)
}

/// A raw HTML block takes at least its opening line and no more lines than
/// there are.
pub proof fn lemma_html_len(kind: HtmlBlock, lines: Seq<Seq<char>>, idx: int)
    requires
        0 <= idx < lines.len(),
    ensures
        1 <= html_len(kind, lines, idx) <= lines.len() - idx,
    decreases lines.len() - idx,
{
    if !accepts(html_end(kind), lines[idx]) {
        if idx + 1 < lines.len() {
            lemma_html_len(kind, lines, idx + 1);
        } else {
            assert(html_len(kind, lines, idx + 1) == 0);
        }
    }
}

fn html_open(line: &Vec<char>, in_paragraph: bool) -> (kind: Option<HtmlBlock>)
    ensures
        kind == html_opening(line@, in_paragraph),
{
    if is_match(VERBATIM_OPEN, line) {
        Some(HtmlBlock::Verbatim)
    } else if is_match(COMMENT_OPEN, line) {
        Some(HtmlBlock::Comment)
    } else if is_match(INSTRUCTION_OPEN, line) {
        Some(HtmlBlock::Instruction)
    } else if is_match(DECLARATION_OPEN, line) {
        Some(HtmlBlock::Declaration)
    } else if is_match(CDATA_OPEN, line) {
        Some(HtmlBlock::Cdata)
    } else if is_match(ELEMENT_OPEN, line) {
        Some(HtmlBlock::Element)
    } else if (is_match(CUSTOM_OPEN, line) || is_match(CUSTOM_CLOSE, line)) && !in_paragraph {
        Some(HtmlBlock::Custom)
    } else {
        None
    }
}

fn html_end_pattern(kind: HtmlBlock) -> (pattern: &'static str)
    ensures
        pattern@ == html_end(kind),
{
    match kind {
        HtmlBlock::Verbatim => VERBATIM_CLOSE,
        HtmlBlock::Comment => COMMENT_CLOSE,
        HtmlBlock::Instruction => INSTRUCTION_CLOSE,
        HtmlBlock::Declaration => DECLARATION_CLOSE,
        HtmlBlock::Cdata => CDATA_CLOSE,
        HtmlBlock::Element => BLANK,
        HtmlBlock::Custom => BLANK,
    }
}

fn add_line(arena: &mut Arena, line: &Vec<char>)
    requires
        old(arena).wf(),
    ensures
        final(arena)@ == with_line(old(arena)@, line@),
        final(arena).wf(),
        final(arena)@.len() == old(arena)@.len() + 2,
        grows(old(arena)@, final(arena)@),
{
    arena.add_text_node(text_of(line));
    arena.add_text_node(String::from_str("\n"));
}

/// Tries the lines from `idx` on as a raw HTML block, and returns the number
/// of lines that the block takes. The line that ends the block is taken with
/// it; the line after that one is not.
pub fn try_raw_html(arena: &mut Arena, lines: &Vec<Vec<char>>, idx: usize) -> (consumed: Option<
    usize,
>)
    requires
        old(arena).wf(),
        idx < lines.len(),
    ensures
        match html_opening(texts(lines@)[idx as int], in_paragraph(old(arena)@)) {
            Some(kind) => consumed is Some && consumed->0 == html_len(
                kind,
                texts(lines@),
                idx as int,
            ) && final(arena)@ == html_nodes(old(arena)@, kind, texts(lines@), idx as int),
            None => consumed is None && final(arena)@ == old(arena)@,
        },
        consumed is Some ==> 1 <= consumed->0 <= lines.len() - idx,
        final(arena).wf(),
        grows(old(arena)@, final(arena)@),
{
    let open_idx: usize = arena.find_open_node(0);
    let kind = match html_open(&lines[idx], arena.is_paragraph(open_idx)) {
        Some(kind) => kind,
        None => {
            return None;
        },
    };
    let end: &'static str = html_end_pattern(kind);
    let n: usize = lines.len();
    let ghost all = texts(lines@);
    let node: usize = arena.add_node(Kind::RawHtml);
    let ghost first = arena@;
    let mut k: usize = idx;
    proof {
        lemma_html_len(kind, all, idx as int);
    }
    while k < n
        invariant
            idx <= k <= n == lines.len(),
            all == texts(lines@),
            end@ == html_end(kind),
            arena.wf(),
            0 < node < arena@.len(),
            node == old(arena)@.len(),
            first == added(old(arena)@, KindModel::RawHtml),
            grows(old(arena)@, arena@),
            kind == html_opening(all[idx as int], in_paragraph(old(arena)@))->0,
            html_opening(all[idx as int], in_paragraph(old(arena)@)) is Some,
            html_len(kind, all, idx as int) == (k - idx) + html_len(kind, all, k as int),
            html_body(arena@, kind, all, k as int) == html_body(first, kind, all, idx as int),
        decreases n - k,
    {
        if is_match(end, &lines[k]) {
            match kind {
                HtmlBlock::Verbatim => {
                    add_line(arena, &lines[k]);
                },
                _ => {},
            }
            proof {
                lemma_closed_wf(arena@, node as int);
            }
            arena.close_node(node);
            return Some(k - idx + 1);
        }
        add_line(arena, &lines[k]);
        k += 1;
    }
    proof {
        lemma_closed_wf(arena@, node as int);
    }
    arena.close_node(node);
    Some(n - idx)
}

/// An opening fence: how far it is indented, the fence itself, and the
/// language named after it.
pub struct Fence {
    pub indent: usize,
    pub marker: Vec<char>,
    pub lang: Option<Vec<char>>,
}

/// What a `Fence` stands for in contracts.
pub struct FenceModel {
    pub indent: nat,
    pub marker: Seq<char>,
    pub lang: Option<Seq<char>>,
}

impl View for Fence {
    type V = FenceModel;

    open spec fn view(&self) -> FenceModel {
        FenceModel {
            indent: self.indent as nat,
            marker: self.marker@,
            lang: match self.lang {
                Some(l) => Some(l@),
                None => None,
            },
        }
    }
}

/// The fence that a line opens a code block with. A line is no opening fence
/// when the word after the fence is itself a fence, or when a fence of
/// backticks is followed by another backtick anywhere on the line.
pub open spec fn fence_of(line: Seq<char>) -> Option<FenceModel> {
    match groups_of(FENCE_OPEN@, line) {
        Some(g) => fence_from(g, accepts(FENCE_CLOSE@, group(g, 3))),
        None => None,
    }
}

/// The fence that the groups of an opening fence give: indentation, fence,
/// language and rest are groups 1 to 4. `lang_is_fence` says that the
/// language is itself a fence.
pub open spec fn fence_from(g: Seq<Option<Seq<char>>>, lang_is_fence: bool) -> Option<FenceModel> {
    let marker = trim(group(g, 2));
    let lang = group(g, 3);
    let rest = group(g, 4);
    if lang_is_fence {
        None
    } else if first_char(marker) == Some('`') && (lang.contains('`') || rest.contains('`')) {
        None
    } else {
        Some(
            FenceModel {
                indent: group(g, 1).len(),
                marker,
                lang: if lang.len() == 0 {
                    None
                } else {
                    Some(lang)
                },
            },
        )
    }
}

/// Whether a line closes a code block opened by `marker`: it is a fence of
/// the same character, at least as long.
pub open spec fn ends_fence(marker: Seq<char>, line: Seq<char>) -> bool {
    match groups_of(FENCE_CLOSE@, line) {
        Some(g) => fence_end_from(g, marker),
        None => false,
    }
}

/// Whether the fence in group 1 of a closing fence closes a code block
/// opened by `marker`.
pub open spec fn fence_end_from(g: Seq<Option<Seq<char>>>, marker: Seq<char>) -> bool {
    let end = trim(group(g, 1));
    end.len() >= marker.len() && first_char(end) == first_char(marker)
}

/// The number of lines, from line `idx` on, that the body of a code block
/// and its closing fence take; all that are left when no line closes it.
pub open spec fn fence_len(marker: Seq<char>, lines: Seq<Seq<char>>, idx: int) -> nat
    decreases lines.len() - idx,
{
    if idx < 0 || idx >= lines.len() {
        0
    } else if ends_fence(marker, lines[idx]) {
        1
    } else {
        1 + fence_len(marker, lines, idx + 1)
    }
}

/// How many characters of indentation a body line loses: its leading white
/// space, but no more than `indent` characters of it.
pub open spec fn indent_width(s: Seq<char>, indent: nat) -> nat
    decreases indent,
{
    if indent > 0 && s.len() > 0 && is_space(s[0]) {
        1 + indent_width(s.drop_first(), (indent - 1) as nat)
    } else {
        0
    }
}

/// A body line without the indentation it loses.
pub open spec fn strip_indent(s: Seq<char>, indent: nat) -> Seq<char> {
    s.subrange(indent_width(s, indent) as int, s.len() as int)
}

/// Whether a character is one of the two that a code block escapes.
pub open spec fn is_angle(c: char) -> bool {
    c == '<' || c == '>'
}

/// What a character of a code block is written as.
pub open spec fn escape_char(c: char) -> Seq<char> {
    if c == '<' {
        "&lt;"@
    } else if c == '>' {
        "&gt;"@
    } else {
        seq![c]
    }
}

/// A text with each `<` and `>` written as its entity, and nothing else
/// changed.
pub open spec fn escape_angles(s: Seq<char>) -> Seq<char>
    decreases s.len(),
{
    if s.len() == 0 {
        Seq::empty()
    } else {
        escape_char(s[0]) + escape_angles(s.drop_first())
    }
}

/// The place of the first `<` or `>` of a text; its length when it has none.
pub open spec fn angle_at(s: Seq<char>) -> nat
    decreases s.len(),
{
    if s.len() == 0 || is_angle(s[0]) {
        0
    } else {
        1 + angle_at(s.drop_first())
    }
}

/// The texts that a body line is added as: what stands before each `<` or
/// `>`, be it empty, then the entity, and at last what is left, if anything.
pub open spec fn code_texts(s: Seq<char>) -> Seq<Seq<char>>
    decreases s.len(),
{
    let k = angle_at(s);
    if k >= s.len() {
        if s.len() > 0 {
            seq![s]
        } else {
            Seq::empty()
        }
    } else {
        seq![s.subrange(0, k as int), escape_char(s[k as int])] + code_texts(
            s.subrange(k as int + 1, s.len() as int),
        )
    }
}

/// The arena with each of `pieces` added as a text, in order.
pub open spec fn with_texts(a: Nodes, pieces: Seq<Seq<char>>) -> Nodes
    decreases pieces.len(),
{
    if pieces.len() == 0 {
        a
    } else {
        with_texts(with_text(a, pieces[0]), pieces.drop_first())
    }
}

/// The arena after the body of a code block, from line `idx` on, has been
/// added: each line without its indentation and with its angle brackets
/// escaped, and a line feed between two lines. `first` says that no body line
/// came before.
pub open spec fn fence_body(
    a: Nodes,
    fence: FenceModel,
    lines: Seq<Seq<char>>,
    idx: int,
    first: bool,
) -> Nodes
    decreases lines.len() - idx,
{
    if idx < 0 || idx >= lines.len() || ends_fence(fence.marker, lines[idx]) {
        a
    } else {
        let b = if first {
            a
        } else {
            with_text(a, "\n"@)
        };
        fence_body(
            with_texts(b, code_texts(strip_indent(lines[idx], fence.indent))),
            fence,
            lines,
            idx + 1,
            false,
        )
    }
}

/// The arena with the code block added whose opening fence is line `idx`,
/// filled and closed.
pub open spec fn fence_nodes(a: Nodes, fence: FenceModel, lines: Seq<Seq<char>>, idx: int) -> Nodes {
    closed(
        fence_body(added(a, KindModel::Code(fence.lang)), fence, lines, idx + 1, true),
        a.len() as int,
    )
}

/// What a body line loses is white space at its start, of no more
/// characters than the opening fence is indented by.
pub proof fn lemma_strip_indent(s: Seq<char>, indent: nat)
    ensures
        indent_width(s, indent) <= indent,
        indent_width(s, indent) <= s.len(),
        forall|j: int| 0 <= j < indent_width(s, indent) ==> is_space(#[trigger] s[j]),
        s == s.subrange(0, indent_width(s, indent) as int) + strip_indent(s, indent),
    decreases indent,
{
    if indent > 0 && s.len() > 0 && is_space(s[0]) {
        let t = s.drop_first();
        lemma_strip_indent(t, (indent - 1) as nat);
        assert forall|j: int| 0 <= j < indent_width(s, indent) implies is_space(
            #[trigger] s[j],
        ) by {
            if j > 0 {
                assert(s[j] == t[j - 1]);
            }
        }
    }
    assert(s =~= s.subrange(0, indent_width(s, indent) as int) + strip_indent(s, indent));
}

/// The first angle bracket lies where a scan from the start finds it.
pub proof fn lemma_angle_at(s: Seq<char>, k: int)
    requires
        0 <= k <= s.len(),
        forall|j: int| 0 <= j < k ==> !is_angle(s[j]),
        k < s.len() ==> is_angle(s[k]),
    ensures
        angle_at(s) == k,
    decreases k,
{
    if k > 0 {
        lemma_angle_at(s.drop_first(), k - 1);
    }
}

/// Escaping a text that has no angle bracket before place `k` leaves its
/// first `k` characters as they are.
pub proof fn lemma_escape_plain(s: Seq<char>, k: int)
    requires
        0 <= k <= s.len(),
        forall|j: int| 0 <= j < k ==> !is_angle(s[j]),
    ensures
        escape_angles(s) == s.subrange(0, k) + escape_angles(s.subrange(k, s.len() as int)),
    decreases k,
{
    if k == 0 {
        assert(s.subrange(0, s.len() as int) == s);
        assert(s.subrange(0, 0) + escape_angles(s) == escape_angles(s));
    } else {
        let t = s.drop_first();
        lemma_escape_plain(t, k - 1);
        assert(t.subrange(k - 1, t.len() as int) == s.subrange(k, s.len() as int));
        assert(seq![s[0]] + t.subrange(0, k - 1) == s.subrange(0, k));
        assert(escape_angles(s) == seq![s[0]] + (t.subrange(0, k - 1) + escape_angles(
            s.subrange(k, s.len() as int),
        )));
    }
}

/// Code fidelity: the texts that a body line is added as, read one after the
/// other, are the line itself with `<` and `>` written as entities. No other
/// character is changed, dropped or added.
pub proof fn lemma_code_fidelity(s: Seq<char>)
    ensures
        code_texts(s).flatten() == escape_angles(s),
    decreases s.len(),
{
    let k = angle_at(s) as int;
    lemma_angle_bound(s);
    lemma_escape_plain(s, k);
    if k >= s.len() {
        assert(s.subrange(0, k) == s);
        assert(escape_angles(s.subrange(k, s.len() as int)) == Seq::<char>::empty());
        if s.len() > 0 {
            assert(seq![s].drop_first() == Seq::<Seq<char>>::empty());
            assert(seq![s].flatten() == s + Seq::<Seq<char>>::empty().flatten());
            assert(seq![s].flatten() == s);
        } else {
            assert(code_texts(s).flatten() == Seq::<char>::empty());
        }
        assert(s + Seq::<char>::empty() == s);
    } else {
        let rest = s.subrange(k + 1, s.len() as int);
        let tail = s.subrange(k, s.len() as int);
        lemma_code_fidelity(rest);
        assert(tail.drop_first() == rest);
        assert(escape_angles(tail) == escape_char(s[k]) + escape_angles(rest));
        let pieces = code_texts(s);
        let head = seq![s.subrange(0, k), escape_char(s[k])];
        assert(pieces == head + code_texts(rest));
        assert(pieces.drop_first() == seq![escape_char(s[k])] + code_texts(rest));
        assert(pieces.drop_first().drop_first() == code_texts(rest));
        assert(pieces.flatten() == s.subrange(0, k) + pieces.drop_first().flatten());
        assert(pieces.drop_first().flatten() == escape_char(s[k]) + code_texts(rest).flatten());
        assert(s.subrange(0, k) + (escape_char(s[k]) + escape_angles(rest)) == s.subrange(0, k)
            + escape_char(s[k]) + escape_angles(rest));
    }
}

/// The first angle bracket lies within the text or at its end, with none
/// before it.
pub proof fn lemma_angle_bound(s: Seq<char>)
    ensures
        angle_at(s) <= s.len(),
        forall|j: int| 0 <= j < angle_at(s) ==> !is_angle(s[j]),
        angle_at(s) < s.len() ==> is_angle(s[angle_at(s) as int]),
    decreases s.len(),
{
    if s.len() > 0 && !is_angle(s[0]) {
        lemma_angle_bound(s.drop_first());
        assert forall|j: int| 0 <= j < angle_at(s) implies !is_angle(s[j]) by {
            if j > 0 {
                assert(s[j] == s.drop_first()[j - 1]);
            }
        }
    }
}

/// Reads the fence from the groups of an opening fence.
pub fn fence_parts(g: &Groups, lang_is_fence: bool) -> (fence: Option<Fence>)
    ensures
        match fence {
            Some(f) => fence_from(g@, lang_is_fence) == Some(f@),
            None => fence_from(g@, lang_is_fence) is None,
        },
{
    let marker = trimmed(&g.get(2));
    let lang = g.get(3);
    let rest = g.get(4);
    if lang_is_fence {
        None
    } else if same_char(first_of(&marker), Some('`')) && (contains_char(&lang, '`')
        || contains_char(&rest, '`')) {
        None
    } else {
        let indent: usize = g.get(1).len();
        Some(
            Fence {
                indent,
                marker,
                lang: if lang.len() == 0 {
                    None
                } else {
                    Some(lang)
                },
            },
        )
    }
}

/// Tells from the groups of a closing fence whether it closes a code block
/// opened by `marker`.
pub fn fence_end(g: &Groups, marker: &Vec<char>) -> (b: bool)
    ensures
        b == fence_end_from(g@, marker@),
{
    let end = trimmed(&g.get(1));
    end.len() >= marker.len() && same_char(first_of(&end), first_of(marker))
}

fn fence_open(line: &Vec<char>) -> (fence: Option<Fence>)
    ensures
        match fence {
            Some(f) => fence_of(line@) == Some(f@),
            None => fence_of(line@) is None,
        },
{
    match captures(FENCE_OPEN, line) {
        Some(g) => {
            let lang_is_fence: bool = is_match(FENCE_CLOSE, &g.get(3));
            fence_parts(&g, lang_is_fence)
        },
        None => None,
    }
}

fn fence_ends(marker: &Vec<char>, line: &Vec<char>) -> (b: bool)
    ensures
        b == ends_fence(marker@, line@),
{
    match captures(FENCE_CLOSE, line) {
        Some(g) => fence_end(&g, marker),
        None => false,
    }
}

fn escaped(c: char) -> (s: String)
    requires
        is_angle(c),
    ensures
        s@ == escape_char(c),
{
    if c == '<' {
        String::from_str("&lt;")
    } else {
        String::from_str("&gt;")
    }
}

/// Adds one body line of a code block to the arena: the line without its
/// indentation, cut at each `<` and `>`, which are added as entities.
pub fn add_code_line(arena: &mut Arena, line: &Vec<char>, indent: usize)
    requires
        old(arena).wf(),
    ensures
        final(arena)@ == with_texts(old(arena)@, code_texts(strip_indent(line@, indent as nat))),
        final(arena).wf(),
        grows(old(arena)@, final(arena)@),
{
    let n: usize = line.len();
    let mut w: usize = 0;
    assert(line@.subrange(0, n as int) == line@);
    while w < indent && w < n && line[w].is_whitespace()
        invariant
            w <= n == line.len(),
            w <= indent,
            indent_width(line@, indent as nat) == w + indent_width(
                line@.subrange(w as int, n as int),
                (indent - w) as nat,
            ),
        decreases n - w,
    {
        assert(line@.subrange(w as int, n as int).drop_first() == line@.subrange(w + 1, n as int));
        w += 1;
    }
    let ghost body = line@.subrange(w as int, n as int);
    assert(body == strip_indent(line@, indent as nat));
    let mut start: usize = w;
    let mut i: usize = w;
    while i < n
        invariant
            w <= start <= i <= n == line.len(),
            body == line@.subrange(w as int, n as int),
            forall|j: int| start <= j < i ==> !is_angle(line@[j]),
            arena.wf(),
            grows(old(arena)@, arena@),
            with_texts(arena@, code_texts(line@.subrange(start as int, n as int))) == with_texts(
                old(arena)@,
                code_texts(body),
            ),
        decreases n - i,
    {
        let c: char = line[i];
        if c == '>' || c == '<' {
            let ghost rest = line@.subrange(start as int, n as int);
            let ghost before = arena@;
            proof {
                lemma_angle_at(rest, i - start);
                assert(rest.subrange(0, i - start) == line@.subrange(start as int, i as int));
                assert(rest.subrange(i - start + 1, rest.len() as int) == line@.subrange(
                    i + 1,
                    n as int,
                ));
                let pieces = code_texts(rest);
                let next = code_texts(line@.subrange(i + 1, n as int));
                assert(pieces == seq![line@.subrange(start as int, i as int), escape_char(c)]
                    + next);
                assert(pieces.drop_first() == seq![escape_char(c)] + next);
                assert(pieces.drop_first().drop_first() == next);
                let one = with_text(before, pieces[0]);
                assert(with_texts(before, pieces) == with_texts(one, pieces.drop_first()));
                assert(pieces.drop_first()[0] == pieces[1]);
                assert(with_texts(one, pieces.drop_first()) == with_texts(
                    with_text(one, pieces[1]),
                    next,
                ));
            }
            arena.add_text_node(string_of(line, start, i));
            arena.add_text_node(escaped(c));
            start = i + 1;
        }
        i += 1;
    }
    let ghost rest = line@.subrange(start as int, n as int);
    proof {
        lemma_angle_at(rest, n - start);
        if start < n {
            assert(code_texts(rest) == seq![rest]);
            assert(seq![rest].drop_first() == Seq::<Seq<char>>::empty());
            assert(with_texts(arena@, code_texts(rest)) == with_texts(
                with_text(arena@, rest),
                Seq::<Seq<char>>::empty(),
            ));
        } else {
            assert(code_texts(rest) == Seq::<Seq<char>>::empty());
        }
    }
    if i > start {
        arena.add_text_node(string_of(line, start, n));
    }
}

/// A code block takes at least its opening fence and no more lines than
/// there are.
pub proof fn lemma_fence_len(marker: Seq<char>, lines: Seq<Seq<char>>, idx: int)
    requires
        0 <= idx <= lines.len(),
    ensures
        fence_len(marker, lines, idx) <= lines.len() - idx,
    decreases lines.len() - idx,
{
    if idx < lines.len() && !ends_fence(marker, lines[idx]) {
        lemma_fence_len(marker, lines, idx + 1);
    }
}

fn to_lang(lang: &Option<Vec<char>>) -> (s: Option<String>)
    ensures
        match s {
            Some(t) => match *lang {
                Some(l) => t@ == l@,
                None => false,
            },
            None => *lang is None,
        },
{
    match lang {
        Some(l) => Some(text_of(l)),
        None => None,
    }
}

/// Tries the lines from `idx` on as a fenced code block, and returns the
/// number of lines that the block takes: the opening fence, the body, and the
/// closing fence where there is one.
pub fn try_fenced_code(arena: &mut Arena, lines: &Vec<Vec<char>>, idx: usize) -> (consumed:
    Option<usize>)
    requires
        old(arena).wf(),
        idx < lines.len(),
    ensures
        match fence_of(texts(lines@)[idx as int]) {
            Some(fence) => consumed is Some && consumed->0 == 1 + fence_len(
                fence.marker,
                texts(lines@),
                idx + 1,
            ) && final(arena)@ == fence_nodes(old(arena)@, fence, texts(lines@), idx as int),
            None => consumed is None && final(arena)@ == old(arena)@,
        },
        consumed is Some ==> 1 <= consumed->0 <= lines.len() - idx,
        final(arena).wf(),
        grows(old(arena)@, final(arena)@),
{
    let fence = match fence_open(&lines[idx]) {
        Some(fence) => fence,
        None => {
            return None;
        },
    };
    let n: usize = lines.len();
    let ghost all = texts(lines@);
    let node: usize = arena.add_node(Kind::Code(to_lang(&fence.lang)));
    let ghost started = arena@;
    let mut k: usize = idx + 1;
    proof {
        lemma_fence_len(fence@.marker, all, idx + 1);
    }
    while k < n
        invariant
            idx < k <= n == lines.len(),
            all == texts(lines@),
            arena.wf(),
            0 < node < arena@.len(),
            node == old(arena)@.len(),
            started == added(old(arena)@, KindModel::Code(fence@.lang)),
            grows(old(arena)@, arena@),
            fence_of(all[idx as int]) == Some(fence@),
            fence_len(fence@.marker, all, idx + 1) == (k - idx - 1) + fence_len(
                fence@.marker,
                all,
                k as int,
            ),
            fence_body(arena@, fence@, all, k as int, k == idx + 1) == fence_body(
                started,
                fence@,
                all,
                idx + 1,
                true,
            ),
        decreases n - k,
    {
        if fence_ends(&fence.marker, &lines[k]) {
            proof {
                lemma_closed_wf(arena@, node as int);
            }
            arena.close_node(node);
            return Some(k - idx + 1);
        }
        if k > idx + 1 {
            arena.add_text_node(String::from_str("\n"));
        }
        add_code_line(arena, &lines[k], fence.indent);
        k += 1;
    }
    proof {
        lemma_closed_wf(arena@, node as int);
    }
    arena.close_node(node);
    Some(n - idx)
}

} // verus!

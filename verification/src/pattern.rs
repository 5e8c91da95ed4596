//! Line grammars are written as regular expressions and run by the `regex`
//! crate. Nothing about the matching algorithm is proved here: each call is
//! given a name, and the rest of the library reasons over those names.

use regex::Regex;
use vstd::prelude::*;
use crate::text::copy_of;

verus! {

/// Stands for the answer of `Regex::is_match` for a pattern and a text:
/// `None` when the pattern is not a valid expression, otherwise whether the
/// expression matches anywhere in the text.
pub uninterp spec fn match_of(pattern: Seq<char>, text: Seq<char>) -> Option<bool>;

/// Stands for the groups of the first match that `Regex::captures` finds:
/// `None` when the pattern is invalid or nothing matches; otherwise one entry
/// per capture group, group zero being the whole match, with `None` for a
/// group that took no part in the match.
pub uninterp spec fn groups_of(pattern: Seq<char>, text: Seq<char>) -> Option<Seq<Option<Seq<char>>>>;

/// The view of a list of optional group texts.
pub open spec fn groups_view(groups: Option<Vec<Option<Vec<char>>>>) -> Option<Seq<Option<Seq<char>>>> {
    match groups {
        None => None,
        Some(v) => Some(Seq::new(v@.len(), |i: int| match v@[i] {
            None => None,
            Some(g) => Some(g@),
        })),
    }
}

/// Compiles `pattern` with `Regex::new` and asks `Regex::is_match` about
/// `text`. The contract only names the answer.
#[verifier::external_body]
fn regex_is_match(pattern: &str, text: &Vec<char>) -> (r: Option<bool>)
    ensures
        r == match_of(pattern@, text@),
{
    let hay: String = text.iter().collect();
    match Regex::new(pattern) {
        Ok(re) => Some(re.is_match(&hay)),
        Err(_) => None,
    }
}

/// Compiles `pattern` with `Regex::new`, runs `Regex::captures` on `text`
/// and copies out the text of every group, in the order of
/// `Captures::iter`. The contract only names the answer.
#[verifier::external_body]
fn regex_captures(pattern: &str, text: &Vec<char>) -> (r: Option<Vec<Option<Vec<char>>>>)
    ensures
        groups_view(r) == groups_of(pattern@, text@),
{
    let hay: String = text.iter().collect();
    match Regex::new(pattern) {
        Ok(re) => re.captures(&hay).map(
            |caps| caps.iter().map(|m| m.map(|m| m.as_str().chars().collect())).collect(),
        ),
        Err(_) => None,
    }
}

/// Whether `pattern` is a valid expression that matches somewhere in `text`.
pub open spec fn accepts(pattern: Seq<char>, text: Seq<char>) -> bool {
    match_of(pattern, text) == Some(true)
}

/// Tests a line against a pattern.
pub fn is_match(pattern: &str, text: &Vec<char>) -> (b: bool)
    ensures
        b == accepts(pattern@, text@),
{
    match regex_is_match(pattern, text) {
        Some(b) => b,
        None => false,
    }
}

/// The text of group `i` of a match; empty for a group that is missing or
/// took no part in the match.
pub open spec fn group(groups: Seq<Option<Seq<char>>>, i: int) -> Seq<char> {
    if 0 <= i < groups.len() {
        match groups[i] {
            Some(g) => g,
            None => Seq::empty(),
        }
    } else {
        Seq::empty()
    }
}

/// Whether group `i` of a match took part in it.
pub open spec fn has_group(groups: Seq<Option<Seq<char>>>, i: int) -> bool {
    0 <= i < groups.len() && groups[i] is Some
}

/// The groups of a match, as `captures` returns them.
pub struct Groups {
    groups: Vec<Option<Vec<char>>>,
}

impl View for Groups {
    type V = Seq<Option<Seq<char>>>;

    closed spec fn view(&self) -> Seq<Option<Seq<char>>> {
        groups_view(Some(self.groups))->0
    }
}

impl Groups {
    /// The groups of a match, given one by one: `None` stands for a group
    /// that took no part.
    pub fn new(groups: Vec<Option<Vec<char>>>) -> (g: Groups)
        ensures
            g@.len() == groups@.len(),
            forall|i: int|
                0 <= i < groups@.len() ==> (#[trigger] g@[i]) == match groups@[i] {
                    Some(text) => Some(text@),
                    None => None,
                },
    {
        Groups { groups }
    }

    /// The text of group `i`.
    pub fn get(&self, i: usize) -> (text: Vec<char>)
        ensures
            text@ == group(self@, i as int),
    {
        if i < self.groups.len() {
            match &self.groups[i] {
                Some(g) => copy_of(g),
                None => Vec::new(),
            }
        } else {
            Vec::new()
        }
    }

    /// Whether group `i` took part in the match.
    pub fn has(&self, i: usize) -> (b: bool)
        ensures
            b == has_group(self@, i as int),
    {
        if i < self.groups.len() {
            self.groups[i].is_some()
        } else {
            false
        }
    }
}

/// Matches a line against a pattern and returns the groups of the first
/// match.
pub fn captures(pattern: &str, text: &Vec<char>) -> (found: Option<Groups>)
    ensures
        match found {
            Some(g) => groups_of(pattern@, text@) == Some(g@),
            None => groups_of(pattern@, text@) is None,
        },
{
    match regex_captures(pattern, text) {
        Some(groups) => Some(Groups { groups }),
        None => None,
    }
}

/// A setext underline: three or more `-` or `=`.
pub const SETEXT: &'static str = r"^\s*(\-{3,}|={3,})\s*$";

/// A thematic break: three or more `*`, `-` or `_`, with white space at will.
pub const THEMATIC: &'static str = r"^((\s*\*){3,}|(\s*\-){3,}|(\s*_){3,})\s*$";

/// An ATX header: one to six `#`, the text, and a closing run of `#`.
pub const HEADER: &'static str = r"^\s*(\#{1,6})(\s+(.*?))?(\s+\#*)?\s*$";

/// The opening fence of a code block, with its language and what follows.
pub const FENCE_OPEN: &'static str = r"^(\s*)(`{3,}|~{3,})\s*([^\s]*)(.*)$";

/// A closing fence.
pub const FENCE_CLOSE: &'static str = r"^\s*(`{3,}|~{3,})\s*$";

/// The prefix of a quoted line.
pub const QUOTE: &'static str = r"^(\s*>\s?)";

/// A list item: marker, spacing, and the rest of the line.
pub const LIST_ITEM: &'static str =
    r"^(\s*(?:\*|\+|\-|(?:(?:[0-9]{1,9}|[a-z]|[A-Z])(?:\.|\)))))(?:(\s{1,4})(.*)|)?$";

/// The white space at the start of a line.
pub const LEADING_SPACE: &'static str = r"^(\s*)";

/// The start of a script, pre or style element.
pub const VERBATIM_OPEN: &'static str = r"^\s*<(?i)(script|pre|style)(\s|>|$)";

/// The end of a script, pre or style element.
pub const VERBATIM_CLOSE: &'static str = r"</(?i)(script|pre|style)>";

/// The start of an HTML comment.
pub const COMMENT_OPEN: &'static str = r"^\s*<!\-\-";

/// The end of an HTML comment.
pub const COMMENT_CLOSE: &'static str = r"\-\->";

/// The start of a processing instruction.
pub const INSTRUCTION_OPEN: &'static str = r"^\s*<\?";

/// The end of a processing instruction.
pub const INSTRUCTION_CLOSE: &'static str = r"\?>";

/// The start of a declaration.
pub const DECLARATION_OPEN: &'static str = r"^\s*<![A-Z]";

/// The end of a declaration.
pub const DECLARATION_CLOSE: &'static str = r">";

/// The start of a CDATA section.
pub const CDATA_OPEN: &'static str = r"^\s*<!\[CDATA\[";

/// The end of a CDATA section.
pub const CDATA_CLOSE: &'static str = r"\]\]>";

/// An opening or closing tag of a block-level element.
pub const ELEMENT_OPEN: &'static str =
    r"^\s*</?(?i)(address|article|aside|base|basefont|blockquote|body|caption|center|col|colgroup|dd|details|dialog|dir|div|dl|dt|fieldset|figcaption|figure|footer|form|frame|frameset|h[1-4]|head|header|hr|html|iframe|legend|li|link|main|menu|menuitem|nav|noframes|ol|optgroup|option|p|param|section|source|summary|table|tbody|td|tfoot|th|thead|title|tr|track|ul)(\s|/?>|$)";

/// An opening tag of any other element, alone on its line.
pub const CUSTOM_OPEN: &'static str = r"^\s*<[a-zA-Z0-9\-]+[^>]*?/?>\s*$";

/// A closing tag of any other element, alone on its line.
pub const CUSTOM_CLOSE: &'static str = r"^\s*</[a-zA-Z0-9\-]+[^>]*?>\s*$";

/// A line of nothing but white space.
pub const BLANK: &'static str = r"^\s*$";

} // verus!

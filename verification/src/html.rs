//! A document seen as HTML.

use vstd::prelude::*;
use crate::tree::{render_all, Doc};

verus! {

/// The HTML rendering of a document.
pub struct Html<'a> {
    doc: &'a Doc,
}

impl<'a> Html<'a> {
    /// The document that is rendered.
    pub closed spec fn doc(&self) -> Doc {
        *self.doc
    }

    /// The HTML rendering of `doc`.
    pub fn new(doc: &'a Doc) -> (html: Html<'a>)
        ensures
            html.doc() == *doc,
    {
        Html { doc }
    }

    /// The HTML text: the blocks of the document, one after the other.
    pub fn to_string(&self) -> (s: String)
        ensures
            s@ == render_all(self.doc()@),
    {
        self.doc.to_string()
    }
}

} // verus!

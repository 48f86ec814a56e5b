//! The elements that the parser tells apart, and the tag names that stand for them.

use vstd::prelude::*;
use crate::text::same_text;

verus! {

/// What a lowercase tag name means to the parser.
#[derive(Clone, Copy, Debug, PartialEq, Eq, Structural)]
pub enum Element {
    /// `h2`: the heading that carries an entry's keyword.
    H2,
    /// `blockquote`: a fenced block of code.
    Blockquote,
    /// `a`: an anchor, either a heading's name or a link.
    A,
    /// `p`: a paragraph.
    P,
    /// `ul`: a list.
    Ul,
    /// `code`: an inline code span.
    Code,
    /// `em`: emphasis.
    Em,
    /// `pre`: preformatted text.
    Pre,
    /// `li`: a list item, which the manual does not reliably close.
    Li,
    /// `dd`: a definition.
    Dd,
    /// `dt`: a defined term.
    Dt,
    /// `!doctype`, `meta`, `link`, `rel`, `br` or `hr`: a tag that never has a closing tag.
    Void,
    /// Any other name: nested like the rest, with no markup of its own.
    Other,
}

/// The element that the lowercase tag name `name` stands for.
pub open spec fn element_of(name: Seq<char>) -> Element {
    if name == "h2"@ {
        Element::H2
    } else if name == "blockquote"@ {
        Element::Blockquote
    } else if name == "a"@ {
        Element::A
    } else if name == "p"@ {
        Element::P
    } else if name == "ul"@ {
        Element::Ul
    } else if name == "code"@ {
        Element::Code
    } else if name == "em"@ {
        Element::Em
    } else if name == "pre"@ {
        Element::Pre
    } else if name == "li"@ {
        Element::Li
    } else if name == "dd"@ {
        Element::Dd
    } else if name == "dt"@ {
        Element::Dt
    } else if name == "!doctype"@ || name == "meta"@ || name == "link"@ || name == "rel"@ || name
        == "br"@ || name == "hr"@ {
        Element::Void
    } else {
        Element::Other
    }
}

/// Whether an opening tag of `element` stays off the stack of open elements.
pub open spec fn is_unclosed(element: Element) -> bool {
    element == Element::Void || element == Element::Li
}

/// Whether text directly inside `element` belongs to the description.
pub open spec fn holds_text(element: Element) -> bool {
    element == Element::P || element == Element::A || element == Element::Ul || element
        == Element::Em
}

impl Element {
    /// The element that the lowercase tag name `name` stands for.
    pub fn from_name(name: &Vec<char>) -> (element: Element)
        ensures
            element == element_of(name@),
    {
        if same_text(name, "h2") {
            Element::H2
        } else if same_text(name, "blockquote") {
            Element::Blockquote
        } else if same_text(name, "a") {
            Element::A
        } else if same_text(name, "p") {
            Element::P
        } else if same_text(name, "ul") {
            Element::Ul
        } else if same_text(name, "code") {
            Element::Code
        } else if same_text(name, "em") {
            Element::Em
        } else if same_text(name, "pre") {
            Element::Pre
        } else if same_text(name, "li") {
            Element::Li
        } else if same_text(name, "dd") {
            Element::Dd
        } else if same_text(name, "dt") {
            Element::Dt
        } else if same_text(name, "!doctype") || same_text(name, "meta") || same_text(name, "link")
            || same_text(name, "rel") || same_text(name, "br") || same_text(name, "hr") {
            Element::Void
        } else {
            Element::Other
        }
    }

    /// Whether an opening tag of this element stays off the stack of open elements.
    pub fn is_unclosed(&self) -> (unclosed: bool)
        ensures
            unclosed == is_unclosed(*self),
    {
        match self {
            Element::Void | Element::Li => true,
            _ => false,
        }
    }

    /// Whether text directly inside this element belongs to the description.
    pub fn holds_text(&self) -> (holds: bool)
        ensures
            holds == holds_text(*self),
    {
        match self {
            Element::P | Element::A | Element::Ul | Element::Em => true,
            _ => false,
        }
    }
}

} // verus!

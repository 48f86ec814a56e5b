//! What the parser computes, as functions on sequences of characters.
//!
//! A pass over a document is a series of steps. Each step consumes either one character of
//! text or one whole tag, and changes the parser's `State`; a step that closes the heading of
//! an open entry also commits that entry as a `Record`.

use vstd::prelude::*;
use crate::element::{element_of, holds_text, is_unclosed, Element};
use crate::keyword::{KeywordInfoView, Record};
use crate::lemmas::lemma_step_advances;
use crate::text::lowercase;

verus! {

/// Why a pass over a document fails: the document ends where a terminator had to follow.
#[derive(Clone, Copy, Debug, PartialEq, Eq, Structural)]
pub enum ParseError {
    /// A `<` is followed by neither a space nor a `>`.
    UnterminatedTag,
    /// The quoted value of a `NAME` or `HREF` attribute has no closing quote.
    UnterminatedAttribute,
    /// An `&` is not followed by a `;`.
    UnterminatedEntity,
}

/// The parser between two steps.
pub struct State {
    /// How many characters of the document are consumed.
    pub pos: int,
    /// The open elements, the innermost last.
    pub stack: Seq<Element>,
    /// The keyword of the open entry; empty when no entry is open.
    pub key: Seq<char>,
    /// The description of the open entry, as far as it is written.
    pub description: Seq<char>,
    /// The target of the link whose closing anchor is awaited; empty when there is none.
    pub href: Seq<char>,
    /// Whether the label of that link is inline code.
    pub href_code: bool,
}

/// The result of one step: the next state, and the entry that the step committed, if any.
pub struct Step {
    pub state: State,
    pub committed: Option<Record>,
}

/// The result of a pass: the state at the end of the document, and the committed entries
/// in the order of their headings.
pub struct Outcome {
    pub state: State,
    pub records: Seq<Record>,
}

/// The characters that end a tag's name.
pub const NAME_STOPS: [char; 2] = [' ', '>'];

/// The character that ends a tag.
pub const TAG_STOPS: [char; 1] = ['>'];

/// The character that ends a quoted attribute value.
pub const QUOTE_STOPS: [char; 1] = ['"'];

/// The character that ends an entity.
pub const ENTITY_STOPS: [char; 1] = [';'];

/// The separator that ends the heading of an entry.
pub const HEADING_RULE: &'static str = "\n---\n";

/// The opening fence of a block of assembler code.
pub const FENCE_OPEN: &'static str = "```ca65";

/// The closing fence of a block of code.
pub const FENCE_CLOSE: &'static str = "```\n";

/// The break between two paragraphs.
pub const PARAGRAPH_BREAK: &'static str = "\n\n";

/// The start of a list item.
pub const BULLET: &'static str = "\n- ";

/// The start of a defined term.
pub const SUBHEADING: &'static str = "\n### ";

/// The attribute text that names a heading's keyword, up to the keyword itself.
pub const NAME_ATTRIBUTE: &'static str = "NAME=\".";

/// The attribute text that starts a link's target.
pub const HREF_ATTRIBUTE: &'static str = "HREF=\"";

/// The address of the manual.
pub const MANUAL_URL: &'static str = "https://cc65.github.io/doc/ca65.html";

/// The address of the directory that holds the manual.
pub const MANUAL_BASE: &'static str = "https://cc65.github.io/doc/";

/// The file name of the manual.
pub const MANUAL_FILE: &'static str = "ca65.html";

/// The mark that starts a link's target where it lies inside the manual.
pub const FRAGMENT_MARK: &'static str = "#";

/// What stands between a link's label and its target.
pub const LINK_TARGET_OPEN: &'static str = "](";

/// The start of a link whose label is inline code.
pub const CODE_LABEL_OPEN: &'static str = "[`";

/// The number of spaces by which the manual indents a line of preformatted text.
pub const SOURCE_INDENT: u8 = 8;

/// The number of spaces by which a description indents such a line.
pub const KEPT_INDENT: u8 = 2;

/// The place of the first character at or after `from` that is one of `stops`.
pub open spec fn find_first(input: Seq<char>, from: int, stops: Seq<char>) -> Option<int>
    decreases input.len() - from,
{
    if from < 0 || from >= input.len() {
        None
    } else if stops.contains(input[from]) {
        Some(from)
    } else {
        find_first(input, from + 1, stops)
    }
}

/// The place just after the first character at or after `from` that is one of `stops`; the
/// end of the document where there is none.
pub open spec fn after_first(input: Seq<char>, from: int, stops: Seq<char>) -> int {
    match find_first(input, from, stops) {
        Some(at) => at + 1,
        None => input.len() as int,
    }
}

/// Whether the document reads `prefix` from `from` on.
pub open spec fn has_prefix_at(input: Seq<char>, from: int, prefix: Seq<char>) -> bool {
    0 <= from && from + prefix.len() <= input.len() && input.subrange(
        from,
        from + prefix.len(),
    ) == prefix
}

/// The number of spaces that follow each other from `from` on, counted up to `limit`.
pub open spec fn leading_spaces(input: Seq<char>, from: int, limit: nat) -> nat
    decreases limit,
{
    if limit == 0 || from < 0 || from >= input.len() || input[from] != ' ' {
        0
    } else {
        1 + leading_spaces(input, from + 1, (limit - 1) as nat)
    }
}

/// `count` spaces.
pub open spec fn spaces(count: nat) -> Seq<char> {
    Seq::new(count, |i: int| ' ')
}

/// The innermost open element.
pub open spec fn top(stack: Seq<Element>) -> Option<Element> {
    if stack.len() > 0 {
        Some(stack.last())
    } else {
        None
    }
}

/// The state with `text` added to the description.
pub open spec fn append(s: State, text: Seq<char>) -> State {
    State { description: s.description + text, ..s }
}

/// The state with the cursor at `pos`.
pub open spec fn at(s: State, pos: int) -> State {
    State { pos, ..s }
}

/// The text that the entity named `name` stands for: nothing for a name that is not known.
pub open spec fn entity_text(name: Seq<char>) -> Seq<char> {
    if name == "gt"@ {
        seq!['>']
    } else if name == "lt"@ {
        seq!['<']
    } else if name == "nbsp"@ {
        seq![' ']
    } else {
        Seq::empty()
    }
}

/// Decodes the entity whose `&` was just consumed: its name runs up to the next `;`, which
/// is consumed too.
pub open spec fn entity(input: Seq<char>, s: State) -> Result<State, ParseError> {
    match find_first(input, s.pos, ENTITY_STOPS@) {
        None => Err(ParseError::UnterminatedEntity),
        Some(end) => Ok(at(append(s, entity_text(input.subrange(s.pos, end))), end + 1)),
    }
}

/// A character of running text: kept as it is, but for an entity, which is decoded.
pub open spec fn plain_char(input: Seq<char>, s: State, c: char) -> Result<State, ParseError> {
    if c == '&' {
        entity(input, s)
    } else {
        Ok(append(s, seq![c]))
    }
}

/// The number of spaces that a description keeps of `found` spaces at the start of a line
/// of preformatted text.
pub open spec fn kept_indent(found: nat) -> nat {
    if found < KEPT_INDENT {
        found
    } else {
        KEPT_INDENT as nat
    }
}

/// A newline of preformatted text, which was just consumed: it is kept, and of the spaces
/// that follow it the first `SOURCE_INDENT`, as far as there are so many, are consumed and
/// the first `KEPT_INDENT` of them kept.
pub open spec fn reindent(input: Seq<char>, s: State) -> State {
    let indent = leading_spaces(input, s.pos, SOURCE_INDENT as nat);
    at(append(s, seq!['\n'] + spaces(kept_indent(indent))), s.pos + indent)
}

/// The character `c` of text, which was just consumed, in the state `s`.
///
/// Outside an entry the character is dropped. Inside inline code it is kept unless it is a
/// newline. Inside a heading it is dropped. Directly inside a paragraph, an anchor, a list
/// or an emphasis it is kept. Directly inside preformatted text it is kept, and the line
/// that a newline starts is indented anew. Anywhere else it is dropped.
pub open spec fn text_char(input: Seq<char>, s: State, c: char) -> Result<State, ParseError> {
    if s.key.len() == 0 {
        Ok(s)
    } else if top(s.stack) == Some(Element::Code) {
        if c == '\n' {
            Ok(s)
        } else {
            Ok(append(s, seq![c]))
        }
    } else if s.stack.contains(Element::H2) {
        Ok(s)
    } else if top(s.stack) is Some && holds_text(top(s.stack)->0) {
        plain_char(input, s, c)
    } else if top(s.stack) == Some(Element::Pre) {
        if c == '\n' {
            Ok(reindent(input, s))
        } else {
            plain_char(input, s, c)
        }
    } else {
        Ok(s)
    }
}

/// The markup that closes `element`, which was just taken off the stack, in an open entry.
/// Closing a heading commits the entry and leaves no entry open.
pub open spec fn closing_markup(s: State, element: Element) -> Step {
    match element {
        Element::H2 => Step {
            state: State { key: Seq::empty(), description: Seq::empty(), ..s },
            committed: Some(
                Record {
                    key: s.key,
                    info: KeywordInfoView {
                        documentation: s.description + HEADING_RULE@,
                        snippet_type: Seq::empty(),
                    },
                },
            ),
        },
        Element::Blockquote => Step { state: append(s, FENCE_CLOSE@), committed: None },
        Element::A => Step {
            state: if s.stack.contains(Element::H2) {
                s
            } else {
                State {
                    description: s.description + (if s.href_code {
                        seq!['`']
                    } else {
                        Seq::empty()
                    }) + (if s.href.len() > 0 {
                        LINK_TARGET_OPEN@ + s.href + seq![')']
                    } else {
                        Seq::empty()
                    }),
                    href: Seq::empty(),
                    href_code: false,
                    ..s
                }
            },
            committed: None,
        },
        Element::P => Step { state: append(s, PARAGRAPH_BREAK@), committed: None },
        Element::Ul => Step { state: append(s, seq!['\n']), committed: None },
        Element::Code => Step {
            state: if s.stack.contains(Element::Blockquote) {
                s
            } else if s.href_code {
                State { href_code: false, ..s }
            } else {
                append(s, seq!['`'])
            },
            committed: None,
        },
        Element::Em => Step { state: append(s, seq!['_']), committed: None },
        _ => Step { state: s, committed: None },
    }
}

/// A closing tag of `element`: the innermost open element leaves the stack, whatever it is;
/// where it is `element` and an entry is open, the closing markup follows.
pub open spec fn close_element(s: State, element: Element) -> Step {
    if s.stack.len() == 0 {
        Step { state: s, committed: None }
    } else {
        let rest = State { stack: s.stack.drop_last(), ..s };
        if s.stack.last() == element && s.key.len() > 0 {
            closing_markup(rest, element)
        } else {
            Step { state: rest, committed: None }
        }
    }
}

/// An opening tag of `element`: it joins the stack unless it is one that is never closed.
pub open spec fn open_element(s: State, element: Element) -> State {
    if is_unclosed(element) {
        s
    } else {
        State { stack: s.stack.push(element), ..s }
    }
}

/// The markup that opens `element` in an open entry.
pub open spec fn opening_markup(s: State, element: Element) -> State {
    match element {
        Element::Blockquote => append(s, FENCE_OPEN@),
        Element::Code => if s.stack.contains(Element::Blockquote) {
            s
        } else {
            append(s, seq!['`'])
        },
        Element::Li => append(s, BULLET@),
        Element::Dd => append(s, PARAGRAPH_BREAK@),
        Element::Dt => append(s, SUBHEADING@),
        Element::Em => append(s, seq!['_']),
        _ => s,
    }
}

/// The target of a link as the description gives it: a target inside the manual is made
/// absolute, any other stays as it is.
pub open spec fn normalize_href(href: Seq<char>) -> Seq<char> {
    if FRAGMENT_MARK@.is_prefix_of(href) {
        MANUAL_URL@ + href
    } else if MANUAL_FILE@.is_prefix_of(href) {
        MANUAL_BASE@ + href
    } else {
        href
    }
}

/// The start of a link to `href`. Where the description ends in the backtick of an inline
/// code span, the span becomes the link's label.
pub open spec fn open_link(s: State, href: Seq<char>) -> State {
    if s.description.len() > 0 && s.description.last() == '`' {
        State {
            href: normalize_href(href),
            href_code: true,
            description: s.description.drop_last() + CODE_LABEL_OPEN@,
            ..s
        }
    } else {
        State { href: normalize_href(href), description: s.description.push('['), ..s }
    }
}

/// Whether the innermost open element lies directly inside a heading.
pub open spec fn under_heading(stack: Seq<Element>) -> bool {
    stack.len() > 1 && stack[stack.len() - 2] == Element::H2
}

/// The attributes of a tag of `element`, from `s.pos` to the `>` that ends the tag.
///
/// Only an anchor's attributes are read. Directly inside a heading, an anchor whose
/// attributes begin with `NAME=".` opens the entry of the keyword that follows, in lowercase.
/// Elsewhere, in an open entry and outside any heading, an anchor whose attributes begin with
/// `HREF="` starts a link. In every other case the cursor moves past the first double quote,
/// if there is one, and then past the next `>`.
pub open spec fn attributes(input: Seq<char>, s: State, element: Element) -> Result<
    State,
    ParseError,
> {
    if element != Element::A {
        Ok(at(s, after_first(input, s.pos, TAG_STOPS@)))
    } else if under_heading(s.stack) && has_prefix_at(input, s.pos, NAME_ATTRIBUTE@) {
        let start = s.pos + NAME_ATTRIBUTE@.len();
        match find_first(input, start, QUOTE_STOPS@) {
            None => Err(ParseError::UnterminatedAttribute),
            Some(end) => Ok(
                State {
                    pos: after_first(input, end, TAG_STOPS@),
                    key: lowercase(input.subrange(start, end)),
                    ..s
                },
            ),
        }
    } else if s.key.len() > 0 && !s.stack.contains(Element::H2) && has_prefix_at(
        input,
        s.pos,
        HREF_ATTRIBUTE@,
    ) {
        let start = s.pos + HREF_ATTRIBUTE@.len();
        match find_first(input, start, QUOTE_STOPS@) {
            None => Err(ParseError::UnterminatedAttribute),
            Some(end) => Ok(
                at(open_link(s, input.subrange(start, end)), after_first(input, end, TAG_STOPS@)),
            ),
        }
    } else {
        Ok(at(s, after_first(input, after_first(input, s.pos, QUOTE_STOPS@), TAG_STOPS@)))
    }
}

/// A tag of `element` whose name was just read, so that `s.pos` is the place of the
/// character that ended the name.
///
/// A closing tag, unless it is a list item's, closes the element; any other tag opens it.
/// Then the character that ended the name is consumed, and the attributes where it was a
/// space. At last, in an open entry, an opening tag writes its markup.
pub open spec fn tag(input: Seq<char>, s: State, element: Element, closing: bool) -> Result<
    Step,
    ParseError,
> {
    let entered = if closing && element != Element::Li {
        close_element(s, element)
    } else {
        Step { state: open_element(s, element), committed: None }
    };
    let scanned = if 0 <= s.pos < input.len() {
        if input[s.pos] == ' ' {
            attributes(input, at(entered.state, s.pos + 1), element)
        } else {
            Ok(at(entered.state, s.pos + 1))
        }
    } else {
        Ok(entered.state)
    };
    match scanned {
        Err(error) => Err(error),
        Ok(after) => Ok(
            Step {
                state: if !closing && after.key.len() > 0 {
                    opening_markup(after, element)
                } else {
                    after
                },
                committed: entered.committed,
            },
        ),
    }
}

/// One step of the pass from the state `s`: nothing at the end of the document, else the
/// next character of text, or the whole tag that a `<` starts. A tag's name runs up to the
/// next space or `>` and counts in lowercase; a `/` before it makes the tag a closing one.
pub open spec fn step(input: Seq<char>, s: State) -> Result<Step, ParseError> {
    if s.pos < 0 || s.pos >= input.len() {
        Ok(Step { state: s, committed: None })
    } else if input[s.pos] != '<' {
        match text_char(input, at(s, s.pos + 1), input[s.pos]) {
            Err(error) => Err(error),
            Ok(after) => Ok(Step { state: after, committed: None }),
        }
    } else {
        let closing = s.pos + 1 < input.len() && input[s.pos + 1] == '/';
        let start = if closing {
            s.pos + 2
        } else {
            s.pos + 1
        };
        match find_first(input, start, NAME_STOPS@) {
            None => Err(ParseError::UnterminatedTag),
            Some(end) => tag(
                input,
                at(s, end),
                element_of(lowercase(input.subrange(start, end))),
                closing,
            ),
        }
    }
}

/// The records `records` followed by the record that a step committed, if it did.
pub open spec fn with_committed(records: Seq<Record>, committed: Option<Record>) -> Seq<Record> {
    match committed {
        Some(record) => records.push(record),
        None => records,
    }
}

/// The pass from the state `s` to the end of the document, after `records` were committed.
/// An entry that is still open at the end is not committed.
pub open spec fn run(input: Seq<char>, s: State, records: Seq<Record>) -> Result<
    Outcome,
    ParseError,
>
    decreases input.len() - s.pos,
    via run_terminates
{
    if s.pos < 0 || s.pos >= input.len() {
        Ok(Outcome { state: s, records })
    } else {
        match step(input, s) {
            Err(error) => Err(error),
            Ok(next) => run(input, next.state, with_committed(records, next.committed)),
        }
    }
}

#[via_fn]
proof fn run_terminates(input: Seq<char>, s: State, records: Seq<Record>) {
    if 0 <= s.pos < input.len() {
        lemma_step_advances(input, s);
    }
}

/// The pass over what is left of the document in the state `s`.
pub open spec fn parse(input: Seq<char>, s: State) -> Result<Outcome, ParseError> {
    run(input, s, Seq::empty())
}

/// The state of a parser that has not yet read anything of a document whose first `pos`
/// characters are consumed.
pub open spec fn initial(pos: int) -> State {
    State {
        pos,
        stack: Seq::empty(),
        key: Seq::empty(),
        description: Seq::empty(),
        href: Seq::empty(),
        href_code: false,
    }
}

} // verus!

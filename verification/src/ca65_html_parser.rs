//! The parser: one pass over the manual, entry by entry.
//!
//! Every function here that changes the parser is held to the function of the same name in
//! `model`: it leaves the state that the model gives, and fails where the model fails.

use vstd::prelude::*;
use crate::element::Element;
use crate::keyword::{docs_of, KeywordInfo, KeywordMap, Record};
use crate::lemmas::{
    lemma_after_first_bounds, lemma_after_first_skips, lemma_find_first, lemma_quote_of_prefix,
    lemma_step_advances,
};
use crate::model::{
    after_first, append, attributes, close_element, entity, find_first, has_prefix_at, initial,
    kept_indent, leading_spaces, normalize_href, open_element, open_link, opening_markup, parse,
    plain_char, reindent, run, spaces, step, tag, text_char, top, ParseError, State, Step,
    BULLET, CODE_LABEL_OPEN, ENTITY_STOPS, FENCE_CLOSE, FENCE_OPEN, FRAGMENT_MARK, HEADING_RULE,
    HREF_ATTRIBUTE, KEPT_INDENT, LINK_TARGET_OPEN, MANUAL_BASE, MANUAL_FILE, MANUAL_URL,
    NAME_ATTRIBUTE, NAME_STOPS, PARAGRAPH_BREAK, QUOTE_STOPS, SOURCE_INDENT, SUBHEADING,
    TAG_STOPS,
};
use crate::stream::Stream;
use crate::text::{lowercased, push_chars, push_text, same_text, starts_with, string_of};

verus! {

/// The record that a keyword and its documentation stand for.
pub open spec fn record_of(entry: (String, KeywordInfo)) -> Record {
    Record { key: entry.0@, info: entry.1@ }
}

/// The record that a step handed out, if it did.
pub open spec fn committed_record(committed: Option<(String, KeywordInfo)>) -> Option<Record> {
    match committed {
        Some(entry) => Some(record_of(entry)),
        None => None,
    }
}

/// Whether `result` and the state `after` are what the model asks for with `expected`:
/// success and the state that `expected` gives; or the error that `expected` gives, with the
/// cursor at the end of `document`.
pub open spec fn agrees(
    document: Seq<char>,
    expected: Result<State, ParseError>,
    result: Result<(), ParseError>,
    after: State,
) -> bool {
    match expected {
        Ok(state) => result is Ok && after == state,
        Err(error) => result == Err::<(), ParseError>(error) && after.pos == document.len(),
    }
}

/// Whether `result` and the state `after` are what the model asks for with `expected`:
/// success, the state that `expected` gives and the entry that it commits, if any; or the
/// error that `expected` gives, with the cursor at the end of `document`.
pub open spec fn agrees_on_step(
    document: Seq<char>,
    expected: Result<Step, ParseError>,
    result: Result<Option<(String, KeywordInfo)>, ParseError>,
    after: State,
) -> bool {
    match expected {
        Ok(next) => after == next.state && (result matches Ok(committed) && committed_record(
            committed,
        ) == next.committed),
        Err(error) => after.pos == document.len() && (result matches Err(failure) && failure
            == error),
    }
}

/// Whether `result` and the state `after` are what a pass over `document` from the state
/// `before` hands out and leaves behind: the table of the committed entries and the state at
/// the end of the document; or the error on which the pass fails, with the cursor at the end
/// of the document.
pub open spec fn is_pass(
    document: Seq<char>,
    before: State,
    result: Result<KeywordMap, ParseError>,
    after: State,
) -> bool {
    match parse(document, before) {
        Ok(outcome) => after == outcome.state && (result matches Ok(table) && table@ == docs_of(
            outcome.records,
        )),
        Err(error) => after.pos == document.len() && (result matches Err(failure) && failure
            == error),
    }
}

/// Whether `c` is one of `terminators`.
pub fn is_terminator(terminators: &[char], c: char) -> (found: bool)
    ensures
        found == terminators@.contains(c),
{
    let mut i: usize = 0;
    while i < terminators.len()
        invariant
            i <= terminators.len(),
            !terminators@.take(i as int).contains(c),
        decreases terminators.len() - i,
    {
        if terminators[i] == c {
            return true;
        }
        i = i + 1;
        assert(terminators@.take(i as int) == terminators@.take(i - 1).push(
            terminators@[i - 1],
        ));
    }
    assert(terminators@.take(terminators.len() as int) == terminators@);
    false
}

/// The target `href` of a link as the description gives it.
pub fn normalized_href(href: Vec<char>) -> (target: Vec<char>)
    ensures
        target@ == normalize_href(href@),
{
    if starts_with(&href, FRAGMENT_MARK) {
        let mut target: Vec<char> = Vec::new();
        push_text(&mut target, MANUAL_URL);
        push_chars(&mut target, &href);
        assert(target@ =~= MANUAL_URL@ + href@);
        target
    } else if starts_with(&href, MANUAL_FILE) {
        let mut target: Vec<char> = Vec::new();
        push_text(&mut target, MANUAL_BASE);
        push_chars(&mut target, &href);
        assert(target@ =~= MANUAL_BASE@ + href@);
        target
    } else {
        href
    }
}

/// A parser of the manual: a cursor over the document, and what is known at the cursor.
pub struct Ca65HtmlParser {
    input: Stream,
    element_stack: Vec<Element>,
    curr_key: Vec<char>,
    curr_description: Vec<char>,
    curr_href: Vec<char>,
    is_href_code: bool,
}

impl Ca65HtmlParser {
    /// The document that the parser reads.
    pub closed spec fn document(&self) -> Seq<char> {
        self.input.text()
    }

    /// The state of the parser.
    pub closed spec fn state(&self) -> State {
        State {
            pos: self.input.offset() as int,
            stack: self.element_stack@,
            key: self.curr_key@,
            description: self.curr_description@,
            href: self.curr_href@,
            href_code: self.is_href_code,
        }
    }

    /// The cursor never lies beyond the end of the document.
    pub proof fn lemma_pos_in_document(&self)
        ensures
            0 <= self.state().pos <= self.document().len(),
    {
        self.input.lemma_offset_in_text();
    }

    /// A parser that will read `input` from its cursor on.
    pub fn new(input: Stream) -> (parser: Self)
        ensures
            parser.document() == input.text(),
            parser.state() == initial(input.offset() as int),
    {
        Self {
            input,
            element_stack: Vec::new(),
            curr_key: Vec::new(),
            curr_description: Vec::new(),
            curr_href: Vec::new(),
            is_href_code: false,
        }
    }

    /// The number of characters consumed so far.
    pub fn pos(&self) -> (pos: usize)
        ensures
            pos == self.state().pos,
            pos <= self.document().len(),
    {
        self.input.pos()
    }

    /// The keyword of the open entry; empty when no entry is open.
    pub fn curr_key(&self) -> (key: String)
        ensures
            key@ == self.state().key,
    {
        string_of(&self.curr_key)
    }

    /// The description of the open entry, as far as it is written.
    pub fn curr_description(&self) -> (description: String)
        ensures
            description@ == self.state().description,
    {
        string_of(&self.curr_description)
    }

    /// The innermost open element.
    pub fn top_element(&self) -> (innermost: Option<Element>)
        ensures
            innermost == top(self.state().stack),
    {
        let depth = self.element_stack.len();
        if depth > 0 {
            Some(self.element_stack[depth - 1])
        } else {
            None
        }
    }

    /// Whether `element` is the innermost open element.
    pub fn is_top_element(&self, element: Element) -> (is_top: bool)
        ensures
            is_top == (top(self.state().stack) == Some(element)),
    {
        match self.top_element() {
            Some(innermost) => innermost == element,
            None => false,
        }
    }

    /// Whether `element` is among the open elements.
    pub fn is_in_element_stack(&self, element: Element) -> (found: bool)
        ensures
            found == self.state().stack.contains(element),
    {
        let mut i: usize = 0;
        while i < self.element_stack.len()
            invariant
                i <= self.element_stack.len(),
                forall|j: int| 0 <= j < i ==> self.element_stack@[j] != element,
            decreases self.element_stack.len() - i,
        {
            if self.element_stack[i] == element {
                return true;
            }
            i = i + 1;
        }
        false
    }

    /// The characters from `start` to the cursor.
    fn string_from(&self, start: usize) -> (chars: Vec<char>)
        requires
            start <= self.state().pos,
        ensures
            chars@ == self.document().subrange(start as int, self.state().pos),
    {
        let end = self.input.pos();
        self.input.slice(start, end)
    }

    /// Moves the cursor to the first of `terminators` at or after it, and says whether there
    /// is one; where there is none, the cursor ends up at the end of the document.
    fn consume_until_before(&mut self, terminators: &[char]) -> (found: bool)
        ensures
            final(self).document() == old(self).document(),
            found == (find_first(old(self).document(), old(self).state().pos, terminators@)
                is Some),
            final(self).state() == (State {
                pos: match find_first(old(self).document(), old(self).state().pos, terminators@) {
                    Some(at) => at,
                    None => old(self).document().len() as int,
                },
                ..old(self).state()
            }),
    {
        loop
            invariant
                self.document() == old(self).document(),
                old(self).state().pos <= self.state().pos,
                find_first(self.document(), self.state().pos, terminators@) == find_first(
                    self.document(),
                    old(self).state().pos,
                    terminators@,
                ),
                self.state() == (State { pos: self.state().pos, ..old(self).state() }),
            decreases self.document().len() - self.state().pos,
        {
            proof {
                self.lemma_pos_in_document();
            }
            match self.input.peek() {
                None => {
                    return false;
                },
                Some(c) => {
                    if is_terminator(terminators, c) {
                        return true;
                    }
                    self.input.advance();
                },
            }
        }
    }

    /// Moves the cursor just past the first of `terminators` at or after it; to the end of
    /// the document where there is none.
    fn consume_until_after(&mut self, terminators: &[char])
        ensures
            final(self).document() == old(self).document(),
            final(self).state() == (State {
                pos: after_first(old(self).document(), old(self).state().pos, terminators@),
                ..old(self).state()
            }),
    {
        loop
            invariant
                self.document() == old(self).document(),
                old(self).state().pos <= self.state().pos,
                after_first(self.document(), self.state().pos, terminators@) == after_first(
                    self.document(),
                    old(self).state().pos,
                    terminators@,
                ),
                self.state() == (State { pos: self.state().pos, ..old(self).state() }),
            decreases self.document().len() - self.state().pos,
        {
            proof {
                self.lemma_pos_in_document();
            }
            match self.input.advance() {
                None => {
                    return ;
                },
                Some(c) => {
                    if is_terminator(terminators, c) {
                        return ;
                    }
                },
            }
        }
    }

    /// Adds `c` to the description.
    fn push_to_description(&mut self, c: char)
        ensures
            final(self).document() == old(self).document(),
            final(self).state() == append(old(self).state(), seq![c]),
    {
        self.curr_description.push(c);
        assert(old(self).state().description + seq![c] == old(self).state().description.push(c));
    }

    /// Decodes the entity whose `&` was just consumed, and adds what it stands for to the
    /// description.
    fn add_html_escape_to_description(&mut self) -> (result: Result<(), ParseError>)
        ensures
            final(self).document() == old(self).document(),
            agrees(
                old(self).document(),
                entity(old(self).document(), old(self).state()),
                result,
                final(self).state(),
            ),
    {
        let start = self.input.pos();
        proof {
            lemma_find_first(self.document(), self.state().pos, ENTITY_STOPS@);
        }
        if !self.consume_until_before(&ENTITY_STOPS) {
            return Err(ParseError::UnterminatedEntity);
        }
        let name = self.string_from(start);
        if same_text(&name, "gt") {
            self.push_to_description('>');
        } else if same_text(&name, "lt") {
            self.push_to_description('<');
        } else if same_text(&name, "nbsp") {
            self.push_to_description(' ');
        } else {
            assert(self.state().description + Seq::<char>::empty() == self.state().description);
        }
        self.input.match_char(';');
        Ok(())
    }

    /// Adds the character `c` of running text to the description, decoding it where it
    /// starts an entity.
    fn plain_char(&mut self, c: char) -> (result: Result<(), ParseError>)
        ensures
            final(self).document() == old(self).document(),
            agrees(
                old(self).document(),
                plain_char(old(self).document(), old(self).state(), c),
                result,
                final(self).state(),
            ),
    {
        if c == '&' {
            self.add_html_escape_to_description()
        } else {
            self.push_to_description(c);
            Ok(())
        }
    }

    /// Takes in a newline of preformatted text, which was just consumed, and the spaces that
    /// indent the line after it.
    fn reindent(&mut self)
        ensures
            final(self).document() == old(self).document(),
            final(self).state() == reindent(old(self).document(), old(self).state()),
    {
        let ghost before = self.state();
        self.curr_description.push('\n');
        let mut indent: u8 = 0;
        while indent < SOURCE_INDENT
            invariant
                indent <= SOURCE_INDENT,
                self.document() == old(self).document(),
                before == old(self).state(),
                self.state() == (State {
                    pos: before.pos + indent,
                    description: before.description.push('\n') + spaces(kept_indent(indent as nat)),
                    ..before
                }),
                leading_spaces(self.document(), before.pos, SOURCE_INDENT as nat) == indent
                    + leading_spaces(
                    self.document(),
                    self.state().pos,
                    (SOURCE_INDENT - indent) as nat,
                ),
            ensures
                leading_spaces(self.document(), before.pos, SOURCE_INDENT as nat) == indent,
            decreases SOURCE_INDENT - indent,
        {
            proof {
                self.lemma_pos_in_document();
            }
            if !self.input.match_char(' ') {
                break ;
            }
            if indent < KEPT_INDENT {
                self.curr_description.push(' ');
                assert(spaces(kept_indent((indent + 1) as nat)) == spaces(
                    kept_indent(indent as nat),
                ).push(' '));
                assert((before.description.push('\n') + spaces(kept_indent(indent as nat))).push(
                    ' ',
                ) == before.description.push('\n') + spaces(kept_indent(indent as nat)).push(' '));
            }
            indent = indent + 1;
        }
        assert(before.description + (seq!['\n'] + spaces(kept_indent(indent as nat)))
            == before.description.push('\n') + spaces(kept_indent(indent as nat)));
    }

    /// Takes in the character `c` of text, which was just consumed.
    pub fn text_char(&mut self, c: char) -> (result: Result<(), ParseError>)
        ensures
            final(self).document() == old(self).document(),
            agrees(
                old(self).document(),
                text_char(old(self).document(), old(self).state(), c),
                result,
                final(self).state(),
            ),
    {
        if self.curr_key.len() == 0 {
            return Ok(());
        }
        let innermost = match self.top_element() {
            Some(innermost) => innermost,
            None => {
                return Ok(());
            },
        };
        if innermost == Element::Code {
            if c != '\n' {
                self.push_to_description(c);
            }
            Ok(())
        } else if self.is_in_element_stack(Element::H2) {
            Ok(())
        } else if innermost.holds_text() {
            self.plain_char(c)
        } else if innermost == Element::Pre {
            if c == '\n' {
                self.reindent();
                Ok(())
            } else {
                self.plain_char(c)
            }
        } else {
            Ok(())
        }
    }

    /// Takes in a closing tag of `element`: takes the innermost open element off the stack
    /// and, where it is `element` and an entry is open, writes the markup that closes it.
    /// Hands out the entry that it commits, if any.
    pub fn close_element(&mut self, element: Element) -> (committed: Option<
        (String, KeywordInfo),
    >)
        ensures
            final(self).document() == old(self).document(),
            final(self).state() == close_element(old(self).state(), element).state,
            committed_record(committed) == close_element(old(self).state(), element).committed,
    {
        let popped = match self.element_stack.pop() {
            Some(popped) => popped,
            None => {
                return None;
            },
        };
        if popped != element || self.curr_key.len() == 0 {
            return None;
        }
        let ghost before = self.state();
        match element {
            Element::H2 => {
                push_text(&mut self.curr_description, HEADING_RULE);
                let key = string_of(&self.curr_key);
                let info = KeywordInfo {
                    documentation: string_of(&self.curr_description),
                    snippet_type: String::new(),
                };
                self.curr_key = Vec::new();
                self.curr_description = Vec::new();
                return Some((key, info));
            },
            Element::Blockquote => {
                push_text(&mut self.curr_description, FENCE_CLOSE);
            },
            Element::A => {
                if !self.is_in_element_stack(Element::H2) {
                    if self.is_href_code {
                        self.curr_description.push('`');
                    }
                    if self.curr_href.len() > 0 {
                        push_text(&mut self.curr_description, LINK_TARGET_OPEN);
                        push_chars(&mut self.curr_description, &self.curr_href);
                        self.curr_description.push(')');
                        self.curr_href = Vec::new();
                    }
                    self.is_href_code = false;
                    proof {
                        let code = if before.href_code {
                            seq!['`']
                        } else {
                            Seq::<char>::empty()
                        };
                        let link = if before.href.len() > 0 {
                            LINK_TARGET_OPEN@ + before.href + seq![')']
                        } else {
                            Seq::<char>::empty()
                        };
                        assert(self.curr_description@ =~= before.description + code + link);
                        assert(self.curr_href@ =~= Seq::<char>::empty());
                    }
                }
            },
            Element::P => {
                push_text(&mut self.curr_description, PARAGRAPH_BREAK);
            },
            Element::Ul => {
                self.push_to_description('\n');
            },
            Element::Code => {
                if !self.is_in_element_stack(Element::Blockquote) {
                    if self.is_href_code {
                        self.is_href_code = false;
                    } else {
                        self.push_to_description('`');
                    }
                }
            },
            Element::Em => {
                self.push_to_description('_');
            },
            _ => {},
        }
        None
    }

    /// Takes in an opening tag of `element`: puts it on the stack unless it is never closed.
    pub fn open_element(&mut self, element: Element)
        ensures
            final(self).document() == old(self).document(),
            final(self).state() == open_element(old(self).state(), element),
    {
        if !element.is_unclosed() {
            self.element_stack.push(element);
        }
    }

    /// Writes the markup that opens `element`.
    pub fn opening_markup(&mut self, element: Element)
        ensures
            final(self).document() == old(self).document(),
            final(self).state() == opening_markup(old(self).state(), element),
    {
        match element {
            Element::Blockquote => {
                push_text(&mut self.curr_description, FENCE_OPEN);
            },
            Element::Code => {
                if !self.is_in_element_stack(Element::Blockquote) {
                    self.push_to_description('`');
                }
            },
            Element::Li => {
                push_text(&mut self.curr_description, BULLET);
            },
            Element::Dd => {
                push_text(&mut self.curr_description, PARAGRAPH_BREAK);
            },
            Element::Dt => {
                push_text(&mut self.curr_description, SUBHEADING);
            },
            Element::Em => {
                self.push_to_description('_');
            },
            _ => {},
        }
    }

    /// Opens the entry of the keyword `key`.
    pub fn open_entry(&mut self, key: Vec<char>)
        ensures
            final(self).document() == old(self).document(),
            final(self).state() == (State { key: key@, ..old(self).state() }),
    {
        self.curr_key = key;
    }

    /// Starts a link to `href`. Where the description ends in the backtick of an inline code
    /// span, the span becomes the link's label.
    pub fn open_link(&mut self, href: Vec<char>)
        ensures
            final(self).document() == old(self).document(),
            final(self).state() == open_link(old(self).state(), href@),
    {
        self.curr_href = normalized_href(href);
        let length = self.curr_description.len();
        if length > 0 && self.curr_description[length - 1] == '`' {
            self.is_href_code = true;
            self.curr_description.pop();
            push_text(&mut self.curr_description, CODE_LABEL_OPEN);
        } else {
            self.curr_description.push('[');
        }
    }

    /// Reads the attributes of a tag of `element`, from the cursor to the `>` that ends the
    /// tag. Where they name a heading's keyword, opens the entry of that keyword; where they
    /// give a link's target, starts the link.
    pub fn attributes(&mut self, element: Element) -> (result: Result<(), ParseError>)
        ensures
            final(self).document() == old(self).document(),
            agrees(
                old(self).document(),
                attributes(old(self).document(), old(self).state(), element),
                result,
                final(self).state(),
            ),
    {
        let ghost input = self.document();
        let ghost before = self.state();
        proof {
            self.lemma_pos_in_document();
            lemma_after_first_bounds(input, before.pos, QUOTE_STOPS@);
            reveal_strlit("NAME=\".");
            reveal_strlit("HREF=\"");
        }
        if element == Element::A {
            let start = self.input.pos();
            self.consume_until_after(&QUOTE_STOPS);
            let ghost quoted = self.state().pos;
            let depth = self.element_stack.len();
            if depth > 1 && self.element_stack[depth - 2] == Element::H2 {
                assert(before.stack[depth - 2] == Element::H2);
                if !self.input.match_char('.') {
                    proof {
                        if has_prefix_at(input, before.pos, NAME_ATTRIBUTE@) {
                            lemma_quote_of_prefix(input, before.pos, NAME_ATTRIBUTE@, 5);
                            assert(input[before.pos + 6] == NAME_ATTRIBUTE@[6]);
                        }
                    }
                } else if !same_text(&self.string_from(start), NAME_ATTRIBUTE) {
                    proof {
                        if has_prefix_at(input, before.pos, NAME_ATTRIBUTE@) {
                            lemma_quote_of_prefix(input, before.pos, NAME_ATTRIBUTE@, 5);
                            assert(input.subrange(before.pos, quoted + 1) == NAME_ATTRIBUTE@);
                        }
                        assert(!TAG_STOPS@.contains('.'));
                        lemma_after_first_skips(input, quoted, TAG_STOPS@);
                    }
                } else {
                    let start = self.input.pos();
                    proof {
                        assert(input.subrange(before.pos, quoted + 1).len()
                            == NAME_ATTRIBUTE@.len());
                        lemma_find_first(input, start as int, QUOTE_STOPS@);
                    }
                    if !self.consume_until_before(&QUOTE_STOPS) {
                        return Err(ParseError::UnterminatedAttribute);
                    }
                    let key = lowercased(&self.string_from(start));
                    self.open_entry(key);
                }
            } else if self.curr_key.len() > 0 && !self.is_in_element_stack(Element::H2) {
                if !same_text(&self.string_from(start), HREF_ATTRIBUTE) {
                    proof {
                        if has_prefix_at(input, before.pos, HREF_ATTRIBUTE@) {
                            lemma_quote_of_prefix(input, before.pos, HREF_ATTRIBUTE@, 5);
                        }
                    }
                } else {
                    let start = self.input.pos();
                    proof {
                        assert(input.subrange(before.pos, quoted).len() == HREF_ATTRIBUTE@.len());
                        lemma_find_first(input, start as int, QUOTE_STOPS@);
                    }
                    if !self.consume_until_before(&QUOTE_STOPS) {
                        return Err(ParseError::UnterminatedAttribute);
                    }
                    let href = self.string_from(start);
                    self.open_link(href);
                }
            }
        }
        self.consume_until_after(&TAG_STOPS);
        Ok(())
    }

    /// Takes in a tag of `element` whose name was just read: the cursor is at the character
    /// that ended the name. Hands out the entry that the tag commits, if any.
    pub fn tag(&mut self, element: Element, closing: bool) -> (result: Result<
        Option<(String, KeywordInfo)>,
        ParseError,
    >)
        ensures
            final(self).document() == old(self).document(),
            agrees_on_step(
                old(self).document(),
                tag(old(self).document(), old(self).state(), element, closing),
                result,
                final(self).state(),
            ),
    {
        proof {
            self.lemma_pos_in_document();
        }
        let committed = if closing && element != Element::Li {
            self.close_element(element)
        } else {
            self.open_element(element);
            None
        };
        let spaced = match self.input.advance() {
            Some(c) => c == ' ',
            None => false,
        };
        if spaced {
            match self.attributes(element) {
                Ok(()) => {},
                Err(error) => {
                    return Err(error);
                },
            }
        }
        if !closing && self.curr_key.len() > 0 {
            self.opening_markup(element);
        }
        Ok(committed)
    }

    /// Takes one step of the pass: nothing at the end of the document, else the next
    /// character of text or the next tag. Hands out the entry that the step commits, if any.
    pub fn step(&mut self) -> (result: Result<Option<(String, KeywordInfo)>, ParseError>)
        ensures
            final(self).document() == old(self).document(),
            agrees_on_step(
                old(self).document(),
                step(old(self).document(), old(self).state()),
                result,
                final(self).state(),
            ),
    {
        proof {
            self.lemma_pos_in_document();
        }
        let c = match self.input.advance() {
            Some(c) => c,
            None => {
                return Ok(None);
            },
        };
        if c != '<' {
            return match self.text_char(c) {
                Ok(()) => Ok(None),
                Err(error) => Err(error),
            };
        }
        let closing = self.input.match_char('/');
        let start = self.input.pos();
        proof {
            lemma_find_first(self.document(), start as int, NAME_STOPS@);
        }
        if !self.consume_until_before(&NAME_STOPS) {
            return Err(ParseError::UnterminatedTag);
        }
        let name = lowercased(&self.string_from(start));
        self.tag(Element::from_name(&name), closing)
    }

    /// Reads the document from the cursor to its end, and hands out the documentation of
    /// every entry whose heading was closed, by keyword: of several entries with one keyword
    /// the last. An entry that is still open at the end is left out.
    ///
    /// The pass fails where the document ends inside a tag's name, inside the quoted keyword
    /// of a heading or the quoted target of a link, or inside an entity.
    pub fn parse_to_hashmap(&mut self) -> (result: Result<KeywordMap, ParseError>)
        ensures
            final(self).document() == old(self).document(),
            is_pass(old(self).document(), old(self).state(), result, final(self).state()),
    {
        let mut table = KeywordMap::new();
        let ghost mut records: Seq<Record> = Seq::empty();
        while !self.input.at_end()
            invariant
                self.document() == old(self).document(),
                table@ == docs_of(records),
                run(self.document(), self.state(), records) == parse(
                    old(self).document(),
                    old(self).state(),
                ),
            decreases self.document().len() - self.state().pos,
        {
            proof {
                self.lemma_pos_in_document();
                lemma_step_advances(self.document(), self.state());
            }
            match self.step() {
                Err(error) => {
                    return Err(error);
                },
                Ok(None) => {},
                Ok(Some(entry)) => {
                    proof {
                        let previous = records;
                        records = previous.push(record_of(entry));
                        assert(records.drop_last() =~= previous);
                    }
                    table.insert(entry.0, entry.1);
                },
            }
        }
        proof {
            self.lemma_pos_in_document();
        }
        Ok(table)
    }
}

} // verus!

//! What holds of every pass over every document.

use vstd::prelude::*;
use crate::ca65_html_parser::is_pass;
use crate::element::{element_of, holds_text, is_unclosed, Element};
use crate::keyword::{docs_of, has_key, lemma_docs_keys, KeywordInfoView, KeywordMap, Record};
use crate::lemmas::{lemma_find_first_is, lemma_step_advances};
use crate::model::{
    append, at, close_element, entity_text, find_first, leading_spaces, normalize_href, parse,
    run, spaces, step, text_char, top, with_committed, Outcome, ParseError, State, Step,
    ENTITY_STOPS, FRAGMENT_MARK, HEADING_RULE, MANUAL_BASE, MANUAL_FILE, MANUAL_URL, NAME_STOPS,
};
use crate::text::lowercase;

verus! {

/// Two passes over one document from one state end alike: both fail in the same way, or
/// both leave the same state behind and hand out tables with the same keywords and, under
/// each keyword, the same documentation.
pub proof fn lemma_pass_is_deterministic(
    document: Seq<char>,
    before: State,
    first: Result<KeywordMap, ParseError>,
    first_after: State,
    second: Result<KeywordMap, ParseError>,
    second_after: State,
)
    requires
        is_pass(document, before, first, first_after),
        is_pass(document, before, second, second_after),
    ensures
        match (first, second) {
            (Ok(one), Ok(other)) => one@ == other@ && first_after == second_after,
            (Err(one), Err(other)) => one == other,
            _ => false,
        },
{
}

/// Whether every element of `stack` is one that a closing tag takes off again.
pub open spec fn all_closable(stack: Seq<Element>) -> bool {
    forall|i: int| 0 <= i < stack.len() ==> !is_unclosed(#[trigger] stack[i])
}

/// A step never puts an element on the stack that is never closed: neither a list item nor
/// one of the tags that have no closing tag.
pub proof fn lemma_step_keeps_stack_closable(input: Seq<char>, s: State)
    requires
        all_closable(s.stack),
    ensures
        step(input, s) matches Ok(next) ==> all_closable(next.state.stack),
{
    match step(input, s) {
        Ok(next) => {
            let stack = next.state.stack;
            assert(stack == s.stack || stack == s.stack.drop_last() || (exists|element: Element|
                !is_unclosed(element) && stack == s.stack.push(element))) by {
                if 0 <= s.pos < input.len() && input[s.pos] == '<' {
                    let closing = s.pos + 1 < input.len() && input[s.pos + 1] == '/';
                    let start = if closing {
                        s.pos + 2
                    } else {
                        s.pos + 1
                    };
                    let end = find_first(input, start, NAME_STOPS@)->0;
                    let element = element_of(lowercase(input.subrange(start, end)));
                    if !(closing && element != Element::Li) && !is_unclosed(element) {
                        assert(stack == s.stack.push(element));
                    }
                }
            }
        },
        Err(error) => {},
    }
}

/// From a stack that holds no element that is never closed, a pass ends with such a stack.
pub proof fn lemma_pass_keeps_stack_closable(input: Seq<char>, s: State, records: Seq<Record>)
    requires
        all_closable(s.stack),
    ensures
        run(input, s, records) matches Ok(outcome) ==> all_closable(outcome.state.stack),
    decreases input.len() - s.pos,
{
    if 0 <= s.pos < input.len() {
        match step(input, s) {
            Ok(next) => {
                lemma_step_advances(input, s);
                lemma_step_keeps_stack_closable(input, s);
                lemma_pass_keeps_stack_closable(
                    input,
                    next.state,
                    with_committed(records, next.committed),
                );
            },
            Err(error) => {},
        }
    }
}

/// A step commits an entry only by closing the heading of an open entry. What it commits
/// is that entry, under its keyword, with the separator after its description and an empty
/// snippet type; and no entry is open after the step.
pub proof fn lemma_commit_closes_heading(input: Seq<char>, s: State)
    requires
        step(input, s) matches Ok(next) && next.committed is Some,
    ensures
        s.key.len() > 0,
        top(s.stack) == Some(Element::H2),
        step(input, s) matches Ok(next) && next.state.key.len() == 0
            && next.state.description.len() == 0 && (next.committed matches Some(record)
            && record.key == s.key && record.info.documentation == s.description + HEADING_RULE@
            && record.info.snippet_type.len() == 0),
{
}

/// Closing the heading of an open entry commits the entry, under its keyword and with the
/// separator after its description, takes the heading off the stack and leaves no entry
/// open.
pub proof fn lemma_heading_close_commits(s: State)
    requires
        s.key.len() > 0,
        top(s.stack) == Some(Element::H2),
    ensures
        close_element(s, Element::H2) == (Step {
            state: State {
                stack: s.stack.drop_last(),
                key: Seq::empty(),
                description: Seq::empty(),
                ..s
            },
            committed: Some(
                Record {
                    key: s.key,
                    info: KeywordInfoView {
                        documentation: s.description + HEADING_RULE@,
                        snippet_type: Seq::empty(),
                    },
                },
            ),
        }),
{
}

/// An entry that is still open where the document ends is left out of the table, unless a
/// heading closed earlier in the pass committed an entry under the same keyword.
pub proof fn lemma_open_entry_is_discarded(input: Seq<char>, s: State)
    requires
        parse(input, s) matches Ok(outcome) && outcome.state.key.len() > 0 && !has_key(
            outcome.records,
            outcome.state.key,
        ),
    ensures
        parse(input, s) matches Ok(outcome) && !docs_of(outcome.records).contains_key(
            outcome.state.key,
        ),
{
    let outcome = parse(input, s)->Ok_0;
    lemma_docs_keys(outcome.records, outcome.state.key);
}

/// A pass that goes on after `records` were committed adds to them what a pass from the
/// same state commits, and ends in the same state; it fails where that pass fails.
pub proof fn lemma_pass_extends_records(input: Seq<char>, s: State, records: Seq<Record>)
    ensures
        match parse(input, s) {
            Ok(rest) => run(input, s, records) == Ok::<Outcome, ParseError>(
                Outcome { state: rest.state, records: records + rest.records },
            ),
            Err(error) => run(input, s, records) == Err::<Outcome, ParseError>(error),
        },
    decreases input.len() - s.pos,
{
    if 0 <= s.pos < input.len() {
        match step(input, s) {
            Ok(next) => {
                lemma_step_advances(input, s);
                let alone = with_committed(Seq::empty(), next.committed);
                let both = with_committed(records, next.committed);
                lemma_pass_extends_records(input, next.state, both);
                lemma_pass_extends_records(input, next.state, alone);
                assert(both == records + alone);
                match parse(input, next.state) {
                    Ok(rest) => {
                        assert(both + rest.records == records + (alone + rest.records));
                    },
                    Err(error) => {},
                }
            },
            Err(error) => {},
        }
    } else {
        assert(records + Seq::<Record>::empty() == records);
    }
}

/// Where what is left of the document commits nothing, because it closes no heading of an
/// open entry, the table stays what it was: the entry that is open, and any that is opened
/// later, is left out.
pub proof fn lemma_unclosed_entries_are_discarded(input: Seq<char>, s: State, records: Seq<Record>)
    requires
        parse(input, s) matches Ok(rest) && rest.records.len() == 0,
    ensures
        run(input, s, records) matches Ok(outcome) && docs_of(outcome.records) == docs_of(records),
{
    lemma_pass_extends_records(input, s, records);
    assert(records + Seq::<Record>::empty() == records);
}

/// At the end of the document a pass commits nothing, whatever entry is open: its table
/// is empty.
pub proof fn lemma_pass_at_end(input: Seq<char>, s: State)
    requires
        s.pos >= input.len(),
    ensures
        parse(input, s) == Ok::<Outcome, ParseError>(Outcome { state: s, records: Seq::empty() }),
        docs_of(Seq::<Record>::empty()) == Map::<Seq<char>, KeywordInfoView>::empty(),
{
}

/// The three entities that the manual uses stand for `>`, `<` and a space.
pub proof fn lemma_known_entities()
    ensures
        entity_text("gt"@) == seq!['>'],
        entity_text("lt"@) == seq!['<'],
        entity_text("nbsp"@) == seq![' '],
{
    reveal_strlit("gt");
    reveal_strlit("lt");
    reveal_strlit("nbsp");
    assert("gt"@ != "lt"@) by {
        assert("gt"@[0] != "lt"@[0]);
    }
    assert("nbsp"@ != "gt"@ && "nbsp"@ != "lt"@) by {
        assert("nbsp"@.len() == 4);
    }
}

/// An entity of any other name stands for nothing.
pub proof fn lemma_unknown_entity(name: Seq<char>)
    requires
        name != "gt"@,
        name != "lt"@,
        name != "nbsp"@,
    ensures
        entity_text(name).len() == 0,
{
}

/// In an open entry, directly inside a paragraph, an anchor, a list or an emphasis and
/// outside any heading, an `&` is replaced, together with the name after it and the `;`
/// that ends the name, by what the entity of that name stands for.
pub proof fn lemma_entity_is_decoded(input: Seq<char>, s: State, end: int)
    requires
        s.key.len() > 0,
        top(s.stack) matches Some(inner) && holds_text(inner),
        !s.stack.contains(Element::H2),
        0 <= s.pos <= end < input.len(),
        input[end] == ';',
        forall|i: int| s.pos <= i < end ==> input[i] != ';',
    ensures
        text_char(input, s, '&') == Ok::<State, ParseError>(
            at(append(s, entity_text(input.subrange(s.pos, end))), end + 1),
        ),
{
    assert(ENTITY_STOPS@[0] == ';');
    lemma_find_first_is(input, s.pos, ENTITY_STOPS@, end);
}

/// A link's target that begins with `#` is put behind the address of the manual; one that
/// begins with the manual's file name, behind the address of the manual's directory; any
/// other target stays as it is.
pub proof fn lemma_href_rewriting(href: Seq<char>)
    ensures
        href.len() > 0 && href[0] == '#' ==> normalize_href(href) == MANUAL_URL@ + href,
        MANUAL_FILE@.is_prefix_of(href) ==> normalize_href(href) == MANUAL_BASE@ + href,
        !(href.len() > 0 && href[0] == '#') && !MANUAL_FILE@.is_prefix_of(href)
            ==> normalize_href(href) == href,
{
    reveal_strlit("ca65.html");
    reveal_strlit("#");
    if href.len() > 0 && href[0] == '#' {
        assert(href.subrange(0, 1) =~= FRAGMENT_MARK@);
    }
    if FRAGMENT_MARK@.is_prefix_of(href) {
        assert(href.subrange(0, 1)[0] == href[0]);
    }
    if MANUAL_FILE@.is_prefix_of(href) {
        assert(href.subrange(0, MANUAL_FILE@.len() as int)[0] == href[0]);
    }
}

/// In an open entry, directly inside preformatted text and outside any heading, a newline
/// that eight spaces follow is written with two spaces behind it, and the eight are
/// consumed; what follows them on the line is not touched.
pub proof fn lemma_indent_of_eight_becomes_two(input: Seq<char>, s: State)
    requires
        s.key.len() > 0,
        top(s.stack) == Some(Element::Pre),
        !s.stack.contains(Element::H2),
        0 <= s.pos,
        s.pos + 8 <= input.len(),
        forall|i: int| s.pos <= i < s.pos + 8 ==> input[i] == ' ',
    ensures
        text_char(input, s, '\n') == Ok::<State, ParseError>(
            at(append(s, seq!['\n', ' ', ' ']), s.pos + 8),
        ),
{
    reveal_with_fuel(leading_spaces, 9);
    assert(leading_spaces(input, s.pos, 8) == 8);
    assert(seq!['\n'] + spaces(2) =~= seq!['\n', ' ', ' ']);
}

/// In an open entry, directly inside preformatted text and outside any heading, a
/// character that is neither a newline nor an `&` is written as it is.
pub proof fn lemma_preformatted_char_is_kept(input: Seq<char>, s: State, c: char)
    requires
        s.key.len() > 0,
        top(s.stack) == Some(Element::Pre),
        !s.stack.contains(Element::H2),
        c != '\n',
        c != '&',
    ensures
        text_char(input, s, c) == Ok::<State, ParseError>(append(s, seq![c])),
{
}

} // verus!

//! Facts about the functions of the model.

use vstd::prelude::*;
use crate::element::{element_of, Element};
use crate::model::{
    after_first, at, attributes, close_element, entity, find_first, has_prefix_at,
    leading_spaces, open_element, step, tag, text_char, State, Step, ENTITY_STOPS,
    HREF_ATTRIBUTE, NAME_ATTRIBUTE, NAME_STOPS, QUOTE_STOPS, SOURCE_INDENT, TAG_STOPS,
};
use crate::text::lowercase;

verus! {

/// `find_first` gives the first place it can: a stop, with no stop between `from` and it;
/// and it gives none only where no stop follows.
pub proof fn lemma_find_first(input: Seq<char>, from: int, stops: Seq<char>)
    requires
        0 <= from,
    ensures
        match find_first(input, from, stops) {
            Some(at) => from <= at < input.len() && stops.contains(input[at]) && forall|i: int|
                from <= i < at ==> !stops.contains(#[trigger] input[i]),
            None => forall|i: int| from <= i < input.len() ==> !stops.contains(#[trigger] input[i]),
        },
    decreases input.len() - from,
{
    if from < input.len() && !stops.contains(input[from]) {
        lemma_find_first(input, from + 1, stops);
    }
}

/// A stop that no stop precedes is the one that `find_first` gives.
pub proof fn lemma_find_first_is(input: Seq<char>, from: int, stops: Seq<char>, at: int)
    requires
        0 <= from <= at < input.len(),
        stops.contains(input[at]),
        forall|i: int| from <= i < at ==> !stops.contains(#[trigger] input[i]),
    ensures
        find_first(input, from, stops) == Some(at),
    decreases at - from,
{
    if from < at {
        lemma_find_first_is(input, from + 1, stops, at);
    }
}

/// `after_first` moves forward and stays inside the document.
pub proof fn lemma_after_first_bounds(input: Seq<char>, from: int, stops: Seq<char>)
    requires
        0 <= from <= input.len(),
    ensures
        from <= after_first(input, from, stops) <= input.len(),
{
    lemma_find_first(input, from, stops);
}

/// The spaces that `leading_spaces` counts are there, and are no more than the limit.
pub proof fn lemma_leading_spaces(input: Seq<char>, from: int, limit: nat)
    requires
        0 <= from <= input.len(),
    ensures
        leading_spaces(input, from, limit) <= limit,
        from + leading_spaces(input, from, limit) <= input.len(),
    decreases limit,
{
    if limit > 0 && from < input.len() && input[from] == ' ' {
        lemma_leading_spaces(input, from + 1, (limit - 1) as nat);
    }
}

/// Decoding an entity moves the cursor forward, inside the document.
pub proof fn lemma_entity_advances(input: Seq<char>, s: State)
    requires
        0 <= s.pos <= input.len(),
    ensures
        entity(input, s) matches Ok(after) ==> s.pos < after.pos <= input.len(),
{
    lemma_find_first(input, s.pos, ENTITY_STOPS@);
}

/// A character of text leaves the cursor where it is or moves it forward, inside the
/// document.
pub proof fn lemma_text_char_advances(input: Seq<char>, s: State, c: char)
    requires
        0 <= s.pos <= input.len(),
    ensures
        text_char(input, s, c) matches Ok(after) ==> s.pos <= after.pos <= input.len(),
{
    lemma_entity_advances(input, s);
    lemma_leading_spaces(input, s.pos, SOURCE_INDENT as nat);
}

/// Reading a tag's attributes leaves the cursor where it is or moves it forward, inside the
/// document.
pub proof fn lemma_attributes_advance(input: Seq<char>, s: State, element: Element)
    requires
        0 <= s.pos <= input.len(),
    ensures
        attributes(input, s, element) matches Ok(after) ==> s.pos <= after.pos <= input.len(),
{
    let quotes = QUOTE_STOPS@;
    let ends = TAG_STOPS@;
    lemma_after_first_bounds(input, s.pos, ends);
    lemma_after_first_bounds(input, s.pos, quotes);
    lemma_after_first_bounds(input, after_first(input, s.pos, quotes), ends);
    let name_start = s.pos + NAME_ATTRIBUTE@.len();
    lemma_find_first(input, name_start, quotes);
    match find_first(input, name_start, quotes) {
        Some(end) => lemma_after_first_bounds(input, end, ends),
        None => {},
    }
    let href_start = s.pos + HREF_ATTRIBUTE@.len();
    lemma_find_first(input, href_start, quotes);
    match find_first(input, href_start, quotes) {
        Some(end) => lemma_after_first_bounds(input, end, ends),
        None => {},
    }
}

/// A tag moves the cursor past the character that ended its name.
pub proof fn lemma_tag_advances(input: Seq<char>, s: State, element: Element, closing: bool)
    requires
        0 <= s.pos < input.len(),
    ensures
        tag(input, s, element, closing) matches Ok(next) ==> s.pos < next.state.pos
            <= input.len(),
{
    let entered = if closing && element != Element::Li {
        close_element(s, element)
    } else {
        Step { state: open_element(s, element), committed: None }
    };
    lemma_attributes_advance(input, at(entered.state, s.pos + 1), element);
}

/// Before the end of the document every step moves the cursor forward, inside the document.
pub proof fn lemma_step_advances(input: Seq<char>, s: State)
    requires
        0 <= s.pos < input.len(),
    ensures
        step(input, s) matches Ok(next) ==> s.pos < next.state.pos <= input.len(),
{
    if input[s.pos] != '<' {
        lemma_text_char_advances(input, at(s, s.pos + 1), input[s.pos]);
    } else {
        let closing = s.pos + 1 < input.len() && input[s.pos + 1] == '/';
        let start = if closing {
            s.pos + 2
        } else {
            s.pos + 1
        };
        lemma_find_first(input, start, NAME_STOPS@);
        match find_first(input, start, NAME_STOPS@) {
            Some(end) => lemma_tag_advances(
                input,
                at(s, end),
                element_of(lowercase(input.subrange(start, end))),
                closing,
            ),
            None => {},
        }
    }
}

/// Where the document reads `prefix` from `from` on, and the first double quote of `prefix`
/// is at `quote`, the first double quote of the document at or after `from` is that one.
pub proof fn lemma_quote_of_prefix(input: Seq<char>, from: int, prefix: Seq<char>, quote: int)
    requires
        has_prefix_at(input, from, prefix),
        0 <= quote < prefix.len(),
        prefix[quote] == '"',
        forall|i: int| 0 <= i < quote ==> prefix[i] != '"',
    ensures
        after_first(input, from, QUOTE_STOPS@) == from + quote + 1,
        forall|i: int| 0 <= i < prefix.len() ==> input[from + i] == prefix[i],
{
    let part = input.subrange(from, from + prefix.len());
    assert forall|i: int| 0 <= i < prefix.len() implies input[from + i] == prefix[i] by {
        assert(part[i] == input[from + i]);
    }
    assert(QUOTE_STOPS@[0] == '"');
    assert forall|i: int| from <= i < from + quote implies !QUOTE_STOPS@.contains(
        #[trigger] input[i],
    ) by {
        assert(input[from + (i - from)] == prefix[i - from]);
    }
    assert(input[from + quote] == prefix[quote]);
    lemma_find_first_is(input, from, QUOTE_STOPS@, from + quote);
}

/// A character that is no stop does not change where the next stop is.
pub proof fn lemma_after_first_skips(input: Seq<char>, from: int, stops: Seq<char>)
    requires
        0 <= from < input.len(),
        !stops.contains(input[from]),
    ensures
        after_first(input, from, stops) == after_first(input, from + 1, stops),
{
}

} // verus!

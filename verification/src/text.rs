//! Conversions between strings and character vectors, and lowercasing.

use vstd::prelude::*;
use vstd::std_specs::iter::IteratorSpec;

verus! {

/// The lowercase form of `text`: the characters of the string that `str::to_lowercase`
/// returns for a slice of the characters `text`. What they are is not spelled out here.
pub uninterp spec fn lowercase(text: Seq<char>) -> Seq<char>;

/// Taken on trust of `str::to_lowercase`: the string that it returns depends on the
/// characters of the slice alone, so that it is `lowercase` of them.
pub assume_specification[ str::to_lowercase ](text: &str) -> (lowered: String)
    ensures
        lowered@ == lowercase(text@),
;

/// Taken on trust of `String::push`: it puts `ch` at the end of the string and leaves the
/// characters before it as they are.
pub assume_specification[ String::push ](text: &mut String, ch: char)
    ensures
        final(text)@ == old(text)@.push(ch),
;

/// The characters of `text`, in order.
pub fn chars_of(text: &str) -> (chars: Vec<char>)
    ensures
        chars@ == text@,
{
    let mut chars: Vec<char> = Vec::new();
    for c in it: text.chars()
        invariant
            chars@ == it.seq().take(it.index()),
    {
        chars.push(c);
    }
    chars
}

/// The string made of `chars`, in order.
pub fn string_of(chars: &Vec<char>) -> (text: String)
    ensures
        text@ == chars@,
{
    let mut text = String::new();
    let mut i: usize = 0;
    while i < chars.len()
        invariant
            i <= chars.len(),
            text@ == chars@.take(i as int),
        decreases chars.len() - i,
    {
        text.push(chars[i]);
        i = i + 1;
        assert(chars@.take(i as int) == chars@.take(i - 1).push(chars@[i - 1]));
    }
    assert(chars@.take(chars.len() as int) == chars@);
    text
}

/// Whether `chars` spells exactly `text`.
pub fn same_text(chars: &Vec<char>, text: &str) -> (same: bool)
    ensures
        same == (chars@ == text@),
{
    let other = chars_of(text);
    if other.len() != chars.len() {
        return false;
    }
    let mut i: usize = 0;
    while i < chars.len()
        invariant
            i <= chars.len(),
            chars.len() == other.len(),
            other@ == text@,
            chars@.take(i as int) == other@.take(i as int),
        decreases chars.len() - i,
    {
        if chars[i] != other[i] {
            return false;
        }
        i = i + 1;
        assert(chars@.take(i as int) == chars@.take(i - 1).push(chars@[i - 1]));
        assert(other@.take(i as int) == other@.take(i - 1).push(other@[i - 1]));
    }
    assert(chars@.take(chars.len() as int) == chars@);
    assert(other@.take(other.len() as int) == other@);
    true
}

/// Whether `chars` begins with `text`.
pub fn starts_with(chars: &Vec<char>, text: &str) -> (found: bool)
    ensures
        found == text@.is_prefix_of(chars@),
{
    let other = chars_of(text);
    if other.len() > chars.len() {
        return false;
    }
    let mut i: usize = 0;
    while i < other.len()
        invariant
            i <= other.len() <= chars.len(),
            other@ == text@,
            chars@.take(i as int) == other@.take(i as int),
        decreases other.len() - i,
    {
        if chars[i] != other[i] {
            assert(chars@.subrange(0, other.len() as int)[i as int] != other@[i as int]);
            return false;
        }
        i = i + 1;
        assert(chars@.take(i as int) == chars@.take(i - 1).push(chars@[i - 1]));
        assert(other@.take(i as int) == other@.take(i - 1).push(other@[i - 1]));
    }
    assert(other@.take(other.len() as int) == other@);
    assert(chars@.take(other.len() as int) == chars@.subrange(0, other.len() as int));
    true
}

/// Appends the characters of `text` to `buffer`.
pub fn push_text(buffer: &mut Vec<char>, text: &str)
    ensures
        final(buffer)@ == old(buffer)@ + text@,
{
    let other = chars_of(text);
    let mut i: usize = 0;
    while i < other.len()
        invariant
            i <= other.len(),
            buffer@ == old(buffer)@ + other@.take(i as int),
        decreases other.len() - i,
    {
        buffer.push(other[i]);
        i = i + 1;
        assert(other@.take(i as int) == other@.take(i - 1).push(other@[i - 1]));
    }
    assert(other@.take(other.len() as int) == other@);
}

/// Appends the characters of `more` to `buffer`.
pub fn push_chars(buffer: &mut Vec<char>, more: &Vec<char>)
    ensures
        final(buffer)@ == old(buffer)@ + more@,
{
    let mut i: usize = 0;
    while i < more.len()
        invariant
            i <= more.len(),
            buffer@ == old(buffer)@ + more@.take(i as int),
        decreases more.len() - i,
    {
        buffer.push(more[i]);
        i = i + 1;
        assert(more@.take(i as int) == more@.take(i - 1).push(more@[i - 1]));
    }
    assert(more@.take(more.len() as int) == more@);
}

/// The lowercase form of `chars`.
pub fn lowercased(chars: &Vec<char>) -> (lowered: Vec<char>)
    ensures
        lowered@ == lowercase(chars@),
{
    let text = string_of(chars);
    let lowered = text.as_str().to_lowercase();
    chars_of(lowered.as_str())
}

} // verus!

use ca65_doc_parser::ca65_html_parser::{is_terminator, normalized_href};
use ca65_doc_parser::text::{
    chars_of, lowercased, push_chars, push_text, same_text, starts_with, string_of,
};
use ca65_doc_parser::Element;

fn chars(text: &str) -> Vec<char> {
    text.chars().collect()
}

#[test]
fn chars_and_strings_convert_both_ways() {
    assert_eq!(chars_of("a\u{e9}z"), vec!['a', '\u{e9}', 'z']);
    assert_eq!(chars_of(""), Vec::<char>::new());
    assert_eq!(string_of(&vec!['a', '\u{e9}', 'z']), "a\u{e9}z");
    assert_eq!(string_of(&Vec::new()), "");
}

#[test]
fn lowercased_follows_unicode() {
    assert_eq!(lowercased(&chars("BlockQuote")), chars("blockquote"));
    assert_eq!(lowercased(&chars("\u{c9}COLE")), chars("\u{e9}cole"));
    // U+0130 has a lowercase form of two characters.
    assert_eq!(lowercased(&chars("\u{130}")), chars("i\u{307}"));
    assert_eq!(lowercased(&chars("!DOCTYPE")), chars("!doctype"));
}

#[test]
fn same_text_compares_whole_texts() {
    assert!(same_text(&chars("h2"), "h2"));
    assert!(!same_text(&chars("h2"), "h"));
    assert!(!same_text(&chars("h"), "h2"));
    assert!(!same_text(&chars("h3"), "h2"));
    assert!(same_text(&chars(""), ""));
}

#[test]
fn starts_with_compares_prefixes() {
    assert!(starts_with(&chars("ca65.html#x"), "ca65.html"));
    assert!(starts_with(&chars("ca65.html"), "ca65.html"));
    assert!(!starts_with(&chars("ca65.htm"), "ca65.html"));
    assert!(!starts_with(&chars("xca65.html"), "ca65.html"));
    assert!(starts_with(&chars("x"), ""));
}

#[test]
fn push_text_and_push_chars_append() {
    let mut buffer = chars("ab");
    push_text(&mut buffer, "\n- ");
    assert_eq!(buffer, chars("ab\n- "));
    push_chars(&mut buffer, &chars("cd"));
    assert_eq!(buffer, chars("ab\n- cd"));
    push_text(&mut buffer, "");
    assert_eq!(buffer, chars("ab\n- cd"));
}

#[test]
fn terminators_are_found() {
    assert!(is_terminator(&[' ', '>'], '>'));
    assert!(is_terminator(&[' ', '>'], ' '));
    assert!(!is_terminator(&[' ', '>'], '<'));
    assert!(!is_terminator(&[], 'a'));
}

#[test]
fn href_formulas() {
    assert_eq!(normalized_href(chars("#a")), chars("https://cc65.github.io/doc/ca65.html#a"));
    assert_eq!(normalized_href(chars("#")), chars("https://cc65.github.io/doc/ca65.html#"));
    assert_eq!(
        normalized_href(chars("ca65.html#a")),
        chars("https://cc65.github.io/doc/ca65.html#a")
    );
    assert_eq!(normalized_href(chars("ca65.htm")), chars("ca65.htm"));
    assert_eq!(normalized_href(chars("http://x/#a")), chars("http://x/#a"));
    assert_eq!(normalized_href(chars("")), chars(""));
}

#[test]
fn names_stand_for_elements() {
    let table = [
        ("h2", Element::H2),
        ("blockquote", Element::Blockquote),
        ("a", Element::A),
        ("p", Element::P),
        ("ul", Element::Ul),
        ("code", Element::Code),
        ("em", Element::Em),
        ("pre", Element::Pre),
        ("li", Element::Li),
        ("dd", Element::Dd),
        ("dt", Element::Dt),
        ("!doctype", Element::Void),
        ("meta", Element::Void),
        ("link", Element::Void),
        ("rel", Element::Void),
        ("br", Element::Void),
        ("hr", Element::Void),
        ("div", Element::Other),
        ("H2", Element::Other),
        ("", Element::Other),
        ("h22", Element::Other),
    ];
    for (name, element) in table {
        assert_eq!(Element::from_name(&chars(name)), element);
    }
}

#[test]
fn elements_that_stay_off_the_stack() {
    assert!(Element::Void.is_unclosed());
    assert!(Element::Li.is_unclosed());
    assert!(!Element::P.is_unclosed());
    assert!(!Element::Other.is_unclosed());
}

#[test]
fn elements_that_hold_text() {
    assert!(Element::P.holds_text());
    assert!(Element::A.holds_text());
    assert!(Element::Ul.holds_text());
    assert!(Element::Em.holds_text());
    assert!(!Element::Pre.holds_text());
    assert!(!Element::Code.holds_text());
    assert!(!Element::H2.holds_text());
}

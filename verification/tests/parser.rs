use ca65_doc_parser::{Ca65HtmlParser, KeywordMap, ParseError, Stream};

/// Opens the entry `k` and then takes the heading off the stack with a closing tag that
/// does not match it, so that what follows is read as the entry's body.
const OPEN: &str = "<h2><a NAME=\".K\"></a></x>";

fn parser(document: &str) -> Ca65HtmlParser {
    Ca65HtmlParser::new(Stream::new(document.to_string()))
}

fn parse(document: &str) -> Result<KeywordMap, ParseError> {
    parser(document).parse_to_hashmap()
}

fn body(table: &KeywordMap, key: &str) -> String {
    table.get(key).expect("the key is in the table").documentation.clone()
}

/// The description of the entry `k` after `body` was read in it.
fn described(body: &str) -> String {
    let mut parser = parser(&format!("{OPEN}{body}"));
    let table = parser.parse_to_hashmap().expect("the document is read to its end");
    assert!(table.is_empty());
    assert_eq!(parser.curr_key(), "k");
    parser.curr_description()
}

#[test]
fn empty_document_gives_empty_table() {
    let table = parse("").unwrap();
    assert!(table.is_empty());
    assert_eq!(table.len(), 0);
}

#[test]
fn text_before_the_first_heading_is_dropped() {
    let table = parse("<html><p>preamble &lt; text</p><ul><li>x</ul></html>").unwrap();
    assert!(table.is_empty());
}

#[test]
fn heading_anchor_names_the_key() {
    let mut parser = parser("<h2><a NAME=\".FOO\">");
    let table = parser.parse_to_hashmap().unwrap();
    assert!(table.is_empty());
    assert_eq!(parser.curr_key(), "foo");
}

#[test]
fn anchor_name_is_matched_by_case() {
    let mut parser = parser("<h2><a name=\".FOO\">");
    parser.parse_to_hashmap().unwrap();
    assert_eq!(parser.curr_key(), "");
}

#[test]
fn anchor_name_needs_the_period() {
    let mut parser = parser("<h2><a NAME=\"ss11.1\">");
    parser.parse_to_hashmap().unwrap();
    assert_eq!(parser.curr_key(), "");
}

#[test]
fn anchor_outside_a_heading_names_no_key() {
    let mut lone = parser("<a NAME=\".FOO\">");
    lone.parse_to_hashmap().unwrap();
    assert_eq!(lone.curr_key(), "");
    let mut nested = parser("<h2><b><a NAME=\".FOO\">");
    nested.parse_to_hashmap().unwrap();
    assert_eq!(nested.curr_key(), "");
}

#[test]
fn closing_heading_commits_one_entry() {
    let mut parser = parser("<h2><a NAME=\".BAR\">x</a></h2><p>hello</p></h2>");
    let table = parser.parse_to_hashmap().unwrap();
    assert_eq!(table.len(), 1);
    assert_eq!(body(&table, "bar"), "\n---\n");
    assert_eq!(table.get("bar").unwrap().snippet_type, "");
    assert_eq!(parser.curr_key(), "");
    assert_eq!(parser.curr_description(), "");
}

#[test]
fn committed_body_is_the_description_and_the_separator() {
    let table = parse(&format!("{OPEN}<p>hello</p><h2></h2>")).unwrap();
    assert_eq!(table.len(), 1);
    assert_eq!(body(&table, "k"), "hello\n\n\n---\n");
}

#[test]
fn heading_text_is_dropped_but_heading_code_is_kept() {
    let table = parse("<h2><a NAME=\".A16\"></a> 11.1 <code>.A16</code></h2>").unwrap();
    assert_eq!(body(&table, "a16"), "`.A16`\n---\n");
}

#[test]
fn tag_names_count_in_lowercase() {
    let table = parse("<H2><A NAME=\".Foo\"></A><CODE>x</CODE></H2>").unwrap();
    assert_eq!(body(&table, "foo"), "`x`\n---\n");
}

#[test]
fn tag_names_are_lowercased_as_unicode() {
    // U+212A, the Kelvin sign, has the lowercase form `k`.
    assert_eq!(described("<p><LIN\u{212A}>x</p>"), "x\n\n");
    assert_eq!(described("<p><LINQ>x</p>"), "");
}

#[test]
fn keys_are_lowercased_as_unicode() {
    let mut parser = parser("<h2><a NAME=\".\u{c9}T\u{c9}\">");
    parser.parse_to_hashmap().unwrap();
    assert_eq!(parser.curr_key(), "\u{e9}t\u{e9}");
}

#[test]
fn entities_are_decoded() {
    assert_eq!(described("<p>a&lt;b&gt;c&nbsp;d</p>"), "a<b>c d\n\n");
}

#[test]
fn unknown_entity_gives_nothing() {
    assert_eq!(described("<p>a&amp;b</p>"), "ab\n\n");
    assert_eq!(described("<p>a&;b</p>"), "ab\n\n");
    assert_eq!(described("<p>a&LT;b</p>"), "ab\n\n");
}

#[test]
fn entity_name_starts_right_after_the_ampersand() {
    assert_eq!(described("<p>a&&lt;b</p>"), "ab\n\n");
}

#[test]
fn entities_inside_code_are_kept_as_written() {
    assert_eq!(described("<code>a&lt;b</code>"), "`a&lt;b`");
}

#[test]
fn list_items_become_bullets() {
    assert_eq!(described("<ul><li>one<li>two</ul>"), "\n- one\n- two\n");
}

#[test]
fn closing_list_item_is_ignored() {
    assert_eq!(described("<ul><li>a</li>b</ul>"), "\n- ab\n");
}

#[test]
fn fragment_link_points_into_the_manual() {
    assert_eq!(
        described("<p><a HREF=\"#foo\">x</a></p>"),
        "[x](https://cc65.github.io/doc/ca65.html#foo)\n\n"
    );
}

#[test]
fn manual_link_is_made_absolute() {
    assert_eq!(
        described("<p><a HREF=\"ca65.html#foo\">x</a></p>"),
        "[x](https://cc65.github.io/doc/ca65.html#foo)\n\n"
    );
}

#[test]
fn other_link_is_kept() {
    assert_eq!(
        described("<p><a HREF=\"https://example.com/a\">x</a></p>"),
        "[x](https://example.com/a)\n\n"
    );
    assert_eq!(described("<p><a HREF=\"ld65.html\">x</a></p>"), "[x](ld65.html)\n\n");
}

#[test]
fn link_attribute_is_matched_by_case() {
    assert_eq!(described("<p><a href=\"#foo\">x</a></p>"), "x\n\n");
}

#[test]
fn link_inside_a_heading_is_not_written() {
    let table = parse("<h2><a NAME=\".K\"></a><a HREF=\"#toc\"><code>.K</code></a></h2>").unwrap();
    assert_eq!(body(&table, "k"), "`.K`\n---\n");
}

#[test]
fn code_before_a_link_becomes_its_label() {
    assert_eq!(
        described("<code><a HREF=\"#foo\">x</a>"),
        "[`x`](https://cc65.github.io/doc/ca65.html#foo)"
    );
}

#[test]
fn closing_anchor_resets_the_code_label() {
    assert_eq!(
        described("<code><a HREF=\"#foo\">x</a></code>"),
        "[`x`](https://cc65.github.io/doc/ca65.html#foo)`"
    );
}

#[test]
fn closing_code_inside_a_code_label_writes_nothing() {
    assert_eq!(
        described("<code><a HREF=\"#foo\"><code>x</code></a>"),
        "[``x](https://cc65.github.io/doc/ca65.html#foo)"
    );
}

#[test]
fn eight_spaces_become_two() {
    assert_eq!(described("<pre>a\n        b  c</pre>"), "a\n  b  c");
}

#[test]
fn fewer_spaces_are_cut_to_two_at_most() {
    assert_eq!(described("<pre>\nb</pre>"), "\nb");
    assert_eq!(described("<pre>\n b</pre>"), "\n b");
    assert_eq!(described("<pre>\n  b</pre>"), "\n  b");
    assert_eq!(described("<pre>\n   b</pre>"), "\n  b");
}

#[test]
fn spaces_after_the_eighth_are_kept() {
    assert_eq!(described("<pre>\n          b</pre>"), "\n    b");
}

#[test]
fn indentation_at_the_end_of_the_document() {
    assert_eq!(described("<pre>\n   "), "\n  ");
}

#[test]
fn entities_in_preformatted_text_are_decoded() {
    assert_eq!(described("<pre>a&lt;b</pre>"), "a<b");
}

#[test]
fn newline_inside_code_is_dropped() {
    assert_eq!(described("<p><code>a\nb</code></p>"), "`ab`\n\n");
}

#[test]
fn blockquote_becomes_a_fence() {
    assert_eq!(
        described("<blockquote><code><pre>\n        lda #0\n</pre></code></blockquote>"),
        "```ca65\n  lda #0\n```\n"
    );
}

#[test]
fn emphasis_is_underscored() {
    assert_eq!(described("<p><em>x</em></p>"), "_x_\n\n");
}

#[test]
fn definition_list_markup() {
    assert_eq!(described("<dl><dt><code>x</code><dd><p>y</p></dl>"), "\n### `x`\n\ny\n\n");
}

#[test]
fn text_in_other_elements_is_dropped() {
    assert_eq!(described("loose<div>text</div><dt>term"), "\n### ");
}

#[test]
fn void_tags_stay_off_the_stack() {
    assert_eq!(described("<p>a<br>b<hr>c<meta>d<link>e<rel>f<!DOCTYPE>g</p>"), "abcdefg\n\n");
}

#[test]
fn closing_tag_pops_whatever_is_open() {
    assert_eq!(described("<p>a</em>b"), "a");
    assert_eq!(described("<p><em>a</p>b</p>"), "_ab\n\n");
}

#[test]
fn attributes_of_other_tags_are_skipped() {
    assert_eq!(described("<p class=\"x\" id='y'>a</p>"), "a\n\n");
}

#[test]
fn anchor_attributes_are_skipped_past_the_first_quote() {
    assert_eq!(described("<p><a id=x>y\">z</a></p>"), "z\n\n");
}

#[test]
fn unclosed_entry_is_discarded() {
    let table = parse("<h2><a NAME=\".OPEN\"></a><code>x</code>").unwrap();
    assert!(table.is_empty());
    assert!(!table.contains_key("open"));
}

#[test]
fn unclosed_entry_after_closed_ones_is_discarded() {
    let table = parse("<h2><a NAME=\".A\"></a></h2><p>x</p><h2><a NAME=\".B\"></a>").unwrap();
    assert_eq!(table.len(), 1);
    assert!(table.contains_key("a"));
    assert!(!table.contains_key("b"));
}

#[test]
fn unclosed_entry_leaves_an_earlier_one_of_its_key() {
    let mut parser =
        parser("<h2><a NAME=\".A\"></a><code>1</code></h2><h2><a NAME=\".A\"></a><code>2</code>");
    let table = parser.parse_to_hashmap().unwrap();
    assert_eq!(table.len(), 1);
    assert_eq!(body(&table, "a"), "`1`\n---\n");
    assert_eq!(parser.curr_key(), "a");
    assert_eq!(parser.curr_description(), "`2`");
}

#[test]
fn last_entry_for_a_key_wins() {
    let table = parse(
        "<h2><a NAME=\".A\"></a><code>1</code></h2><h2><a NAME=\".B\"></a></h2>\
         <h2><a NAME=\".A\"></a><code>2</code></h2>",
    )
    .unwrap();
    assert_eq!(table.len(), 2);
    assert_eq!(body(&table, "a"), "`2`\n---\n");
    assert_eq!(body(&table, "b"), "\n---\n");
    let mut keys: Vec<&str> = table.entries().iter().map(|entry| entry.0.as_str()).collect();
    keys.sort();
    assert_eq!(keys, vec!["a", "b"]);
}

#[test]
fn same_document_gives_same_table() {
    let document = format!(
        "{OPEN}<p>a&lt;b <a HREF=\"#x\">y</a></p><ul><li>one</ul><h2></h2>\
         <h2><a NAME=\".Z\"></a></h2>"
    );
    let first = parse(&document).unwrap();
    let second = parse(&document).unwrap();
    assert_eq!(first.len(), 2);
    assert_eq!(first.len(), second.len());
    for (key, info) in first.entries() {
        let other = second.get(key).expect("the second table holds the key too");
        assert_eq!(info.documentation, other.documentation);
        assert_eq!(info.snippet_type, other.snippet_type);
    }
    assert_eq!(
        body(&first, "k"),
        "a<b [y](https://cc65.github.io/doc/ca65.html#x)\n\n\n- one\n\n---\n"
    );
}

#[test]
fn second_pass_of_one_parser_finds_nothing() {
    let mut parser = parser("<h2><a NAME=\".A\"></a></h2>");
    assert_eq!(parser.parse_to_hashmap().unwrap().len(), 1);
    assert!(parser.parse_to_hashmap().unwrap().is_empty());
}

#[test]
fn unterminated_tag_fails() {
    let mut parser = parser("<p>text<em");
    assert_eq!(parser.parse_to_hashmap().err(), Some(ParseError::UnterminatedTag));
    assert_eq!(parser.pos(), 10);
    assert_eq!(parse("<").err(), Some(ParseError::UnterminatedTag));
    assert_eq!(parse("</").err(), Some(ParseError::UnterminatedTag));
}

#[test]
fn unterminated_entity_fails() {
    let document = format!("{OPEN}<p>a&lt");
    let mut parser = parser(&document);
    assert_eq!(parser.parse_to_hashmap().err(), Some(ParseError::UnterminatedEntity));
    assert_eq!(parser.pos(), document.chars().count());
}

#[test]
fn ampersand_outside_an_entry_is_dropped() {
    assert!(parse("<p>a&lt").unwrap().is_empty());
}

#[test]
fn unterminated_key_fails() {
    assert_eq!(parse("<h2><a NAME=\".FOO>").err(), Some(ParseError::UnterminatedAttribute));
}

#[test]
fn unterminated_link_target_fails() {
    assert_eq!(
        parse(&format!("{OPEN}<p><a HREF=\"#foo>x</a>")).err(),
        Some(ParseError::UnterminatedAttribute)
    );
}

#[test]
fn tag_at_the_end_of_the_document_is_read() {
    assert_eq!(parse(&format!("{OPEN}<p>a</p")).err(), Some(ParseError::UnterminatedTag));
    assert_eq!(described("<p>a</p "), "a\n\n");
    assert_eq!(described("<p>a</p x"), "a\n\n");
}

#[test]
fn steps_hand_out_the_committed_entry() {
    let mut parser = parser("<h2><a NAME=\".K\"></a></h2>x");
    assert!(parser.step().unwrap().is_none());
    assert_eq!(parser.pos(), 4);
    assert!(parser.step().unwrap().is_none());
    assert_eq!(parser.curr_key(), "k");
    assert!(parser.step().unwrap().is_none());
    let (key, info) = parser.step().unwrap().expect("the heading closes here");
    assert_eq!(key, "k");
    assert_eq!(info.documentation, "\n---\n");
    assert_eq!(info.snippet_type, "");
    assert!(parser.step().unwrap().is_none());
    assert_eq!(parser.pos(), 27);
    assert!(parser.step().unwrap().is_none());
    assert_eq!(parser.pos(), 27);
}

#[test]
fn parser_starts_at_the_cursor_of_its_stream() {
    let mut stream = Stream::new("<p<h2><a NAME=\".K\"></a></h2>".to_string());
    stream.advance();
    stream.advance();
    let table = Ca65HtmlParser::new(stream).parse_to_hashmap().unwrap();
    assert!(table.contains_key("k"));
}

#[test]
fn long_document_is_read_to_its_end() {
    let mut document = String::from("<!DOCTYPE html><html><body><p>contents</p>");
    for i in 0..500 {
        document.push_str(&format!(
            "<H2><A NAME=\".K{i}\"></A> <A NAME=\"ss{i}\">{i}</A> <CODE>.K{i}</CODE></H2>\n\
             <P>Text &lt;{i}&gt; with <CODE>code</CODE> and <A HREF=\"#x{i}\">links</A>.</P>\n\
             <BLOCKQUOTE><CODE><PRE>\n        lda #{i}\n</PRE></CODE></BLOCKQUOTE>\n"
        ));
    }
    document.push_str("</body></html>");
    let mut parser = parser(&document);
    let table = parser.parse_to_hashmap().unwrap();
    assert_eq!(table.len(), 500);
    assert_eq!(body(&table, "k0"), "`.K0`\n---\n");
    assert_eq!(body(&table, "k499"), "`.K499`\n---\n");
    assert_eq!(parser.pos(), document.chars().count());
    assert_eq!(parser.curr_key(), "");
}

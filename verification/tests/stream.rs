use ca65_doc_parser::Stream;

#[test]
fn stream_walks_its_document() {
    let mut stream = Stream::new("ab".to_string());
    assert!(!stream.at_end());
    assert_eq!(stream.pos(), 0);
    assert_eq!(stream.peek(), Some('a'));
    assert_eq!(stream.pos(), 0);
    assert_eq!(stream.advance(), Some('a'));
    assert_eq!(stream.pos(), 1);
    assert_eq!(stream.advance(), Some('b'));
    assert!(stream.at_end());
    assert_eq!(stream.peek(), None);
    assert_eq!(stream.advance(), None);
    assert_eq!(stream.pos(), 2);
}

#[test]
fn empty_stream_is_at_its_end() {
    let mut stream = Stream::new(String::new());
    assert!(stream.at_end());
    assert_eq!(stream.peek(), None);
    assert_eq!(stream.advance(), None);
    assert!(!stream.match_char('a'));
    assert_eq!(stream.pos(), 0);
    assert!(stream.slice(0, 0).is_empty());
}

#[test]
fn match_char_consumes_only_what_matches() {
    let mut stream = Stream::new("ab".to_string());
    assert!(!stream.match_char('b'));
    assert_eq!(stream.pos(), 0);
    assert!(stream.match_char('a'));
    assert_eq!(stream.pos(), 1);
    assert!(stream.match_char('b'));
    assert!(!stream.match_char('b'));
    assert_eq!(stream.pos(), 2);
}

#[test]
fn positions_count_characters() {
    let mut stream = Stream::new("\u{e9}\u{4e2d}z".to_string());
    assert_eq!(stream.advance(), Some('\u{e9}'));
    assert_eq!(stream.pos(), 1);
    assert_eq!(stream.advance(), Some('\u{4e2d}'));
    assert_eq!(stream.pos(), 2);
    assert_eq!(stream.slice(0, 2), vec!['\u{e9}', '\u{4e2d}']);
    assert_eq!(stream.slice(1, 3), vec!['\u{4e2d}', 'z']);
    assert_eq!(stream.slice(2, 2), Vec::<char>::new());
}

#[test]
fn stream_from_chars() {
    let mut stream = Stream::from_chars(vec!['x', 'y']);
    assert_eq!(stream.advance(), Some('x'));
    assert_eq!(stream.slice(0, 2), vec!['x', 'y']);
}

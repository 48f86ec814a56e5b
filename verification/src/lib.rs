//! Extraction of keyword documentation from the ca65 assembler manual.
//!
//! The manual is one HTML document. Each of its second-level headings names a keyword in
//! an anchor, and `Ca65HtmlParser` turns what it reads inside such a heading into the
//! keyword's documentation, in a light markdown.

pub mod ca65_html_parser;
pub mod element;
pub mod keyword;
pub mod laws;
pub mod lemmas;
pub mod model;
pub mod stream;
pub mod text;

pub use ca65_html_parser::Ca65HtmlParser;
pub use element::Element;
pub use keyword::{KeywordInfo, KeywordMap};
pub use model::ParseError;
pub use stream::Stream;

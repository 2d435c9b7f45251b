//! A lightweight-markup to HTML converter.
//!
//! The pipeline has two stages: the segmenter splits a document into
//! paragraph-sized runs of non-blank lines, and each run is then either
//! classified line by line (`Line`), or typed as a whole paragraph
//! (`Paragraph`) and rendered to an HTML fragment. A flat per-line path
//! (`Markdown`) recognises only level 1-3 headings.

pub mod text;
pub mod segment;
pub mod line;
pub mod paragraph;
pub mod markdown;

pub use segment::{lines_to_paragraphs, RawParagraph, ToRawParagraphs};
pub use line::{classify_line, Line, LineParagraph};
pub use paragraph::{render_document, Paragraph, ParseParagraphError};
pub use markdown::{Markdown, MarkdownError};

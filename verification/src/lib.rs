//! A line-oriented lightweight-markup to HTML converter.
//!
//! The pipeline has four stages: an inline span transformer that rewrites
//! bold, italic, link and inline-code spans inside one line
//! ([`convert_inline_markdown`]), a line classifier that maps one line to a
//! structural [`Token`] ([`tokenize_line`]), a block grouper that brackets
//! runs of ordered-list items and fenced code blocks, and a renderer that
//! maps each token to its HTML line. [`tokenize_text`] runs the whole
//! pipeline over a document's lines.
//!
//! Malformed markup never fails: a construct without its closing marker, or
//! a marker without its mandatory space, degrades to literal text.

pub mod classify;
pub mod group;
pub mod inline;
pub mod text;
pub mod token;

pub use classify::tokenize_line;
pub use group::tokenize_text;
pub use inline::convert_inline_markdown;
pub use token::Token;

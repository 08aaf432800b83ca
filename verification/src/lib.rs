//! A lexical analyzer for a subset of XML markup.
//!
//! The tokenizer turns a character stream into a flat, ordered sequence of
//! lexical tokens: structural symbols, element and attribute names, quoted
//! values and whitespace runs. Every token serializes back to exactly the
//! source text it stands for, so an error-free token sequence concatenates
//! back to the original input.

pub mod attribute;
pub mod errors;
pub mod token;
pub mod tokenizer;
pub mod tree;

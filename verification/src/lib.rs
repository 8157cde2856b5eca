//! A miniature pattern-matching engine.
//!
//! A pattern is compiled into an ordered sequence of tokens: literal text,
//! alternation groups such as `(one|two|three)`, and single-character
//! wildcards written `.`. A compiled [`matcher::Matcher`] walks that token
//! sequence over a candidate input string and reports, token by token, how
//! far it got, while keeping a high-water mark of the longest trace it has
//! ever produced.
//!
//! The crate also carries a few small text utilities: a space-delimited
//! word iterator, a unique-word extractor, and a word-difference
//! computation between two sentences.

pub mod difference;
pub mod matcher;
pub mod order;
pub mod parser;
pub mod text;
pub mod token;
pub mod unique;
pub mod word_iter;

//! A small JSON text parser.
//!
//! The pipeline has two stages: the tokenizer in [`token`] turns raw text
//! into a sequence of lexical tokens, and the recursive-descent parser in
//! [`parser`] builds a [`value::JsonValue`] tree from those tokens.  The
//! value tree can be rendered back to compact JSON text.
//!
//! Numbers are kept as their source numerals (the exact digit string), so
//! rendering a parsed tree reproduces every numeral verbatim.

pub mod error;
pub mod parser;
pub mod roundtrip;
pub mod token;
pub mod value;

//! A schema-driven codec between loosely typed call arguments and the
//! word-oriented binary calldata of a contract virtual machine.
//!
//! A [`coder::Coder`] holds the functions of a parsed interface description,
//! which is read only where every name in it is safe to read
//! ([`schema_text`]).
//! Encoding a call tokenizes the caller's values against the declared input
//! types of a function ([`tokenizer`], [`scalar`]), lays the tokens out in the
//! head/tail layout behind the function's selector ([`codec`]) and gives the
//! bytes as hexadecimal text ([`framing`]). Decoding takes the text apart
//! again, names the fault of a layout that does not fit the declared types
//! ([`layout`]), reads the tokens, and shows them as values
//! ([`detokenizer`]). The calls at the boundary are in [`api`]; what holds of
//! them together is in [`laws`].
//!
//! The layout itself, the selector, the reading of interface descriptions,
//! hexadecimal text and decimal numerals are the work of the `ethabi` and
//! `hex` crates. Each call into them stands in a function marked
//! `external_body`, whose contract says what is taken on trust.
pub mod api;
pub mod codec;
pub mod coder;
pub mod conformance;
pub mod detokenizer;
pub mod framing;
pub mod laws;
pub mod layout;
pub mod scalar;
pub mod schema_text;
pub mod tokenizer;
pub mod types;
pub mod words;

//! A compiler front end for the small "hatchling" scripting language.
//!
//! The heart of the crate is the lexical scanner in [`tokenizer`]: it turns a
//! raw text buffer into an ordered sequence of typed tokens, skipping
//! whitespace and comments, and is verified against a character-level model
//! of the scan ([`tokenizer::scan_from`]).  The laws of that model -- order
//! preservation under concatenation, insensitivity to inserted whitespace
//! and comments, the literal round trip -- are proved in [`properties`].
//! The [`definitions`] module holds the token taxonomy and the sample-data
//! records of the embedding demo, [`mock`] builds the random sample bundles,
//! and [`parser`] is the stub entry point of the (future) parse stage.

pub mod definitions;
pub mod mock;
pub mod parser;
pub mod properties;
pub mod tokenizer;

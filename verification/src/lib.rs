//! String-classification primitives for a model-description tokenizer.
//!
//! Five pure, stateless predicates over byte strings — numeric-literal
//! recognition, substring search, identifier validation, prefix matching
//! (with an optional case fold), and byte counting — together with the
//! integer encoding used when their results cross a foreign call boundary.

pub mod ascii;
pub mod boundary;
pub mod ident;
pub mod numeric;
pub mod search;

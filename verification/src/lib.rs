//! Decoder for a trinary symbolic cipher.
//!
//! Input strings are built from a small digit alphabet in which each short
//! pattern stands for one output character under one of two table
//! generations (v1 and v2); v2 additionally understands a delimited escape
//! sequence that spells a Unicode codepoint in hexadecimal, written in the
//! same cipher. The engine normalizes its input, matches patterns (and
//! their shorthand variants) in table order, falls back to unknown-sequence
//! tokens so that it always makes progress, and renders the decoded
//! graphemes as display text.

pub mod chars;
pub mod codec;
pub mod grapheme;
pub mod hex;
pub mod mappings;
pub mod normalizer;
pub mod symbols;

pub use codec::{Codec, DecodeError, unicode_parser};
pub use grapheme::{DecodeResult, Grapheme, UnicodeParseError};
pub use mappings::{Mappings, generate_variants_static};
pub use normalizer::NormalizedCiphertext;
pub use symbols::SymbolMapping;

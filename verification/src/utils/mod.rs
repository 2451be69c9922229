//! Helpers on text and bytes.
pub mod keyed;
pub mod text;
pub mod utf8_whitespace;

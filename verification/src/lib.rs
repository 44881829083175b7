//! Decoding of string literal tokens into the bytes they denote, and the checks
//! that turn the content of a file into a NUL-terminated byte string.

pub mod bytes;
pub mod error;
pub mod escape;
pub mod file;
pub mod laws;
pub mod parse;
pub mod token;
pub mod whitespace;

//! A lossless codec for the line format in which credential helpers exchange
//! a context: `key=value` lines, one per field, ended by a blank line or by
//! the end of the input.
//!
//! The executable functions are verified against the mathematical model of
//! the format that the same modules define; [`laws`] proves what holds of
//! encoding and decoding together.

pub mod bytes;
pub mod byte_string;
pub mod boolean;
pub mod context;
pub mod decode;
pub mod laws;
pub mod lemmas;

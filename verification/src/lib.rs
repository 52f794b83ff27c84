//! Streaming XML builder: a grammar front end over token sequences and an
//! incremental, escaping serializer.
//!
//! [`parse`] turns a token sequence into the description of a markup
//! expression ([`ast`]), following the grammar that [`grammar`] states as
//! mathematical functions. [`emit`] turns that description into the calls
//! that write it, and [`Document`] is what the calls are made on: it writes
//! escaped, optionally indented text as they come in. [`render`] makes the
//! calls of a markup that needs no host code, and [`balance`] holds the
//! laws of the calls.

pub mod ast;
pub mod balance;
pub mod document;
pub mod emit;
pub mod error;
pub mod escape;
pub mod grammar;
pub mod literal;
pub mod name;
pub mod parse;
pub mod render;
pub mod text;
pub mod token;

pub use document::{Document, Format, Version};
pub use error::Error;

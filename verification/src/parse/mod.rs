//! Executable parsers for the markup grammar.

pub mod buf;
pub mod element;
pub mod input;
pub mod name;
pub mod prolog;

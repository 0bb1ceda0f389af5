//! A small assembler for x86-64 that writes relocatable ELF64 object files,
//! verified with Verus.
//!
//! A program is a text of lines. Every line becomes a token ([`parse`]); the
//! tokens are checked ([`parse::check_tokens`]) and folded into sections
//! ([`builder`]); the sections are written as an object file ([`writer`]),
//! whose bytes are specified in [`layout`]. [`generator::assemble`] runs the
//! whole pipeline on a text that is already in memory; reading and writing
//! files is left to the caller.
//!
//! Every executable function states what it computes over a mathematical
//! model of its arguments. The only code that is trusted rather than proved
//! is the little-endian conversion of `byteorder` ([`endian`]) and the
//! appending of a character to a `String` ([`text`]).

pub mod align;
pub mod builder;
pub mod elf;
pub mod endian;
pub mod generator;
pub mod layout;
pub mod node;
pub mod parse;
pub mod strtab;
pub mod text;
pub mod writer;

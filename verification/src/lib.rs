//! A compiler for plain-text, double-entry bookkeeping journals.
//!
//! A journal is an indented text of transactions and `set` directives. It
//! is compiled in three stages, each of which has a mathematical model
//! that its functions are proved to follow:
//!
//! - [`lex`] turns the text into tokens, each with the byte offset at
//!   which it starts;
//! - [`parse`] turns the tokens into nodes, with parsers that are built
//!   from combinators and that backtrack over a cursor;
//! - [`compile`] turns the nodes into a journal, in which every
//!   transaction sums to zero in each of its commodities.
//!
//! [`lexparse`] runs the first two stages and [`evaluate`] all three.
//! [`input`] reads journals line by line, straight from the text.

pub mod ast;
pub mod compile;
pub mod evaluate;
pub mod input;
pub mod lex;
pub mod lexparse;
pub mod output;
pub mod parse;
pub mod tokens;

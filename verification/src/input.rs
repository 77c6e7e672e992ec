//! Reading a journal line by line, straight from its text: blank lines,
//! blocks of indented lines, and the lines of a transaction.

pub mod block;
pub mod common;
pub mod posting;
pub mod statement;
pub mod timestamp;
pub mod transaction;

//! Statements: what a journal is made of when it is read line by line.

use crate::ast::{Transaction, TransactionView};
use crate::input::transaction::{self, TransactionParser};
use crate::lex::scanner::{self, LexerResult, StringScanner};
use vstd::prelude::*;

verus! {

/// What a journal holds, line by line.
#[derive(Debug, PartialEq)]
pub enum Statement {
    TransactionStatement(Transaction),
}

/// What contracts see of a statement.
pub enum StatementView {
    TransactionStatement(TransactionView),
}

impl View for Statement {
    type V = StatementView;

    open spec fn view(&self) -> StatementView {
        match *self {
            Statement::TransactionStatement(t) => StatementView::TransactionStatement(t@),
        }
    }
}

/// A statement: a transaction.
pub open spec fn statement_model(s: Seq<u8>) -> Option<(StatementView, nat)> {
    match transaction::transaction_text_model(s) {
        Some((t, n)) => Some((StatementView::TransactionStatement(t), n)),
        None => None,
    }
}

/// The parser of statements.
pub struct StatementParser {}

impl StatementParser {
    /// Parses a statement at the start of `input`. The result is what is
    /// left behind it, and the statement.
    pub fn parse(input: StringScanner) -> (r: LexerResult<(StringScanner, Statement)>)
        ensures
            match r {
                Ok((rest, statement)) => statement_model(input@) matches Some((expected, n))
                    && statement@ == expected && n <= input@.len() && rest.follows(input, n),
                Err(e) => statement_model(input@) is None && e@ == scanner::no_match(
                    input.location() as nat,
                    transaction::TRANSACTION@,
                ),
            },
    {
        proof {
            use_type_invariant(&input);
        }
        match TransactionParser::parse(input) {
            Ok((rest, t)) => Ok((rest, Statement::TransactionStatement(t))),
            Err(e) => Err(e),
        }
    }
}

} // verus!

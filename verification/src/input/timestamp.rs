//! The timestamp at the start of a transaction's first line.

use crate::lex::scanner::{self, LexerResult, StringScanner};
use crate::tokens::{Timestamp, Token, TokenView};
use vstd::prelude::*;

verus! {

/// The timestamp at the start of `s` and its length, as the lexer reads
/// timestamps.
pub open spec fn timestamp_text_model(s: Seq<u8>) -> Option<(nat, Timestamp)> {
    match crate::lex::timestamp::timestamp_model(s) {
        Some((n, TokenView::Timestamp(t))) => Some((n, t)),
        _ => None,
    }
}

/// The parser of timestamps.
pub struct TimestampParser;

impl TimestampParser {
    /// Parses a timestamp at the start of `input`: a full timestamp, or a
    /// date, which stands for midnight at zero UTC offset.
    pub fn parse(input: StringScanner) -> (r: LexerResult<(StringScanner, Timestamp)>)
        ensures
            match r {
                Ok((rest, t)) => timestamp_text_model(input@) matches Some((n, expected)) && t
                    == expected && n <= input@.len() && rest.follows(input, n),
                Err(e) => timestamp_text_model(input@) is None && e@
                    == scanner::no_match(
                    input.location() as nat,
                    crate::lex::timestamp::TIMESTAMP@,
                ),
            },
    {
        proof {
            use_type_invariant(&input);
        }
        let location = input.location();
        match crate::lex::timestamp::lex(input) {
            Ok((rest, Token::Timestamp(t))) => Ok((rest, t)),
            Ok(_) => Err(scanner::error_at(location, crate::lex::timestamp::TIMESTAMP)),
            Err(e) => Err(e),
        }
    }
}

} // verus!

//! The recognizer of identifiers.

use crate::lex::scanner::{self, LexerResult, StringScanner};
use crate::lex::whitespace::{self, CharClass};
use crate::tokens::{Token, TokenView};
use vstd::prelude::*;

verus! {

/// The name under which a text that is no identifier is refused.
pub const IDENTIFIER: &'static str = "identifier";

/// An identifier, after any spaces and tabs: letters and underscores, then
/// letters, underscores and digits.
pub open spec fn identifier_model(s: Seq<u8>) -> scanner::Lexeme {
    let blanks = whitespace::span(s, CharClass::Blank);
    let letters = whitespace::span(s.skip(blanks as int), CharClass::Letter);
    let more = whitespace::span(
        s.skip((blanks + letters) as int),
        CharClass::LetterOrDigit,
    );
    if letters == 0 {
        None
    } else {
        Some(
            (
                blanks + letters + more,
                TokenView::Identifier(
                    scanner::ascii_of(s.subrange(blanks as int, (blanks + letters + more) as int)),
                ),
            ),
        )
    }
}

/// Recognizes an identifier.
pub fn lex(input: StringScanner) -> (r: LexerResult<(StringScanner, Token)>)
    ensures
        scanner::recognized(input, identifier_model(input@), IDENTIFIER@, r),
{
    proof {
        use_type_invariant(&input);
    }
    proof {
        assert(input@.skip(0) =~= input@);
    }
    let blanks = whitespace::span_from(&input, 0, CharClass::Blank);
    let letters = whitespace::span_from(&input, blanks, CharClass::Letter);
    if letters == 0 {
        return Err(scanner::error_at(input.location(), IDENTIFIER));
    }
    let more = whitespace::span_from(
        &input,
        blanks + letters,
        CharClass::LetterOrDigit,
    );
    let name = input.take_from(blanks).take(letters + more);
    proof {
        let after = input@.skip(blanks as int);
        let tail = input@.skip((blanks + letters) as int);
        whitespace::lemma_span_bounds(after, CharClass::Letter);
        whitespace::lemma_span_bounds(tail, CharClass::LetterOrDigit);
        assert(name@ =~= input@.subrange(blanks as int, (blanks + letters + more) as int));
        assert forall|k: int| 0 <= k < name@.len() implies (#[trigger] name@[k]) < 128 by {
            if k < letters {
                assert(name@[k] == after[k]);
            } else {
                assert(name@[k] == tail[k - letters]);
            }
        }
        scanner::lemma_ascii_is_text(name@);
    }
    Ok((input.take_from(blanks + letters + more), Token::Identifier(name.as_str())))
}

} // verus!

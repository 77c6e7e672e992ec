//! The ends of lines.

use crate::lex::scanner::{self, LexerResult, StringScanner};
use crate::lex::whitespace::{self, CharClass};
use vstd::prelude::*;

verus! {

/// The name under which a line that is not empty is refused.
pub const EOL: &'static str = "end of line";

/// The length of an empty line at the start of `s`: spaces and the line
/// feed behind them. A text that ends before the line feed has none.
pub open spec fn eol_model(s: Seq<u8>) -> Option<nat> {
    let spaces = whitespace::span(s, CharClass::Space);
    if spaces < s.len() && s[spaces as int] == whitespace::LINE_FEED {
        Some(spaces + 1)
    } else {
        None
    }
}

/// The length of the empty lines at the start of `s`.
pub open spec fn eols_model(s: Seq<u8>) -> nat
    decreases s.len(),
{
    match eol_model(s) {
        Some(n) => n + eols_model(s.skip(n as int)),
        None => 0,
    }
}

/// The empty lines at the start of a text lie inside it.
pub proof fn lemma_eols_bound(s: Seq<u8>)
    ensures
        eols_model(s) <= s.len(),
    decreases s.len(),
{
    match eol_model(s) {
        Some(n) => {
            lemma_eols_bound(s.skip(n as int));
        },
        None => {},
    }
}

/// Consumes the spaces at the start of `input`; there may be none.
pub fn parse_whitespace(input: StringScanner) -> (r: LexerResult<(StringScanner, ())>)
    ensures
        r matches Ok((rest, _)) && rest.follows(
            input,
            whitespace::span(input@, CharClass::Space),
        ),
{
    proof {
        use_type_invariant(&input);
    }
    proof {
        assert(input@.skip(0) =~= input@);
    }
    let n = whitespace::span_from(&input, 0, CharClass::Space);
    Ok((input.take_from(n), ()))
}

/// Counts the bytes of the empty line that `input` holds at `from`.
fn eol_from(input: &StringScanner, from: usize) -> (r: Option<usize>)
    requires
        from <= input@.len(),
    ensures
        match r {
            Some(n) => eol_model(input@.skip(from as int)) == Some(n as nat) && from + n
                <= input@.len() && n >= 1,
            None => eol_model(input@.skip(from as int)) is None,
        },
{
    proof {
        use_type_invariant(input);
    }
    let spaces = whitespace::span_from(input, from, CharClass::Space);
    match input.byte_at(from + spaces) {
        Some(c) => {
            if c == whitespace::LINE_FEED {
                Some(spaces + 1)
            } else {
                None
            }
        },
        None => None,
    }
}

/// Consumes one line that holds nothing but spaces, with its line feed.
pub fn eol(input: StringScanner) -> (r: LexerResult<(StringScanner, ())>)
    ensures
        match r {
            Ok((rest, _)) => eol_model(input@) matches Some(n) && n <= input@.len()
                && rest.follows(input, n),
            Err(e) => eol_model(input@) is None && e@ == scanner::no_match(
                input.location() as nat,
                EOL@,
            ),
        },
{
    proof {
        use_type_invariant(&input);
    }
    proof {
        assert(input@.skip(0) =~= input@);
    }
    match eol_from(&input, 0) {
        Some(n) => Ok((input.take_from(n), ())),
        None => Err(scanner::error_at(input.location(), EOL)),
    }
}

/// Consumes the empty lines at the start of `input`; there may be none.
pub fn parse_eols(input: StringScanner) -> (r: LexerResult<(StringScanner, ())>)
    ensures
        r matches Ok((rest, _)) && eols_model(input@) <= input@.len() && rest.follows(
            input,
            eols_model(input@),
        ),
{
    proof {
        use_type_invariant(&input);
    }
    let ghost s = input@;
    let mut at: usize = 0;
    proof {
        assert(s.skip(0) =~= s);
        lemma_eols_bound(s);
    }
    loop
        invariant
            input.wf(),
            s == input@,
            at <= s.len(),
            eols_model(s) == at + eols_model(s.skip(at as int)),
        ensures
            at <= s.len(),
            eols_model(s) == at,
        decreases s.len() - at,
    {
        match eol_from(&input, at) {
            Some(n) => {
                proof {
                    assert(s.skip(at as int).skip(n as int) =~= s.skip(at + n));
                }
                at = at + n;
            },
            None => {
                break ;
            },
        }
    }
    Ok((input.take_from(at), ()))
}

} // verus!

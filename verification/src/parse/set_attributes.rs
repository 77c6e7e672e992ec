//! The `set` directive.

use crate::parse::cursor::{self, Outcome, ParserErrorView, ParserResult, TokenScanner};
use crate::tokens::{Keyword, TokenView};
use crate::parse::basic;
use vstd::prelude::*;

verus! {

/// `set`, two identifiers and the end of the line: the name and the value
/// of an attribute. The first token that does not fit fails the rule, and
/// the cursor stays where that failure left it.
pub open spec fn set_attribute_model(tokens: Seq<TokenView>, pos: nat) -> Outcome<
    (Seq<char>, Seq<char>),
> {
    let keyword = basic::keyword_model(tokens, pos, Keyword::SetAttribute);
    let name = basic::identifier_model(tokens, keyword.end);
    let value = basic::identifier_model(tokens, name.end);
    let end = basic::line_separator_model(tokens, value.end);
    if keyword.result is Err {
        Outcome { end: keyword.end, result: Err(keyword.result->Err_0) }
    } else if name.result is Err {
        Outcome { end: name.end, result: Err(name.result->Err_0) }
    } else if value.result is Err {
        Outcome { end: value.end, result: Err(value.result->Err_0) }
    } else if end.result is Err {
        Outcome { end: end.end, result: Err(end.result->Err_0) }
    } else {
        Outcome { end: end.end, result: Ok((name.result->Ok_0, value.result->Ok_0)) }
    }
}

/// What contracts see of a name and its value.
pub open spec fn view_pair(pair: (String, String)) -> (Seq<char>, Seq<char>) {
    (pair.0@, pair.1@)
}

/// The parser of `set` directives.
pub struct SetAttributeParser;

impl SetAttributeParser {
    /// The parser.
    pub fn new() -> (r: Self)
        ensures
            r == SetAttributeParser,
    {
        SetAttributeParser
    }

    /// Parses a `set` directive: its name and its value.
    pub fn parse(&self, scanner: &mut TokenScanner) -> (r: ParserResult<(String, String)>)
        ensures
            final(scanner).tokens() == old(scanner).tokens(),
            final(scanner).tell() == set_attribute_model(
                old(scanner).tokens(),
                old(scanner).tell() as nat,
            ).end,
            match r {
                Ok(pair) => set_attribute_model(
                    old(scanner).tokens(),
                    old(scanner).tell() as nat,
                ).result == Ok::<(Seq<char>, Seq<char>), ParserErrorView>(view_pair(pair)),
                Err(e) => set_attribute_model(
                    old(scanner).tokens(),
                    old(scanner).tell() as nat,
                ).result == Err::<(Seq<char>, Seq<char>), ParserErrorView>(e@),
            },
    {
        basic::parse_keyword(scanner, Keyword::SetAttribute)?;
        let name = basic::parse_identifier(scanner)?;
        let value = basic::parse_identifier(scanner)?;
        basic::parse_line_separator(scanner)?;
        Ok((name, value))
    }
}

} // verus!

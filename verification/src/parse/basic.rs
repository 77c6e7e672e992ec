//! The parsers of single tokens, one for each kind.

use crate::parse::cursor::{
    self, Outcome, Parser, ParserError, ParserErrorDetails, ParserErrorDetailsView, ParserErrorView,
    ParserResult, TokenScanner,
};
use crate::tokens::{Keyword, Timestamp, Token, TokenView};
use vstd::prelude::*;
use vstd::string::StringExecFns;

verus! {

/// The error of a token of another kind than the one expected.
pub open spec fn expected_something_else(location: nat, expected: Seq<char>, found: TokenView)
    -> ParserErrorView {
    ParserErrorView {
        location,
        details: ParserErrorDetailsView::ExpectedSomethingElse(expected, found),
    }
}

/// A parser of one token: it takes the token under the cursor and returns
/// what `payload` finds in it. Where `payload` finds nothing, the token is
/// of the wrong kind: the error names the kind expected and the token
/// found, at the position of that token. Where the tokens have ended, the
/// error is `Incomplete`. The cursor moves on by one in every case.
pub open spec fn expect_model<V>(
    tokens: Seq<TokenView>,
    pos: nat,
    expected: Seq<char>,
    payload: spec_fn(TokenView) -> Option<V>,
) -> Outcome<V> {
    if pos >= tokens.len() {
        Outcome { end: cursor::moved_on(pos), result: Err(cursor::incomplete(pos)) }
    } else {
        match payload(tokens[pos as int]) {
            Some(v) => Outcome { end: pos + 1, result: Ok(v) },
            None => Outcome {
                end: pos + 1,
                result: Err(expected_something_else(pos, expected, tokens[pos as int])),
            },
        }
    }
}

/// Builds the error of a token of another kind than the one expected.
fn unexpected(location: usize, expected: &str, found: &Token) -> (e: ParserError)
    ensures
        e@ == expected_something_else(location as nat, expected@, found@),
{
    ParserError {
        location,
        details: ParserErrorDetails::ExpectedSomethingElse(
            String::from_str(expected),
            found.clone(),
        ),
    }
}

/// What a timestamp holds; nothing for a token of another kind.
pub open spec fn timestamp_payload(t: TokenView) -> Option<Timestamp> {
    match t {
        TokenView::Timestamp(ts) => Some(ts),
        _ => None,
    }
}

/// Takes a timestamp.
pub open spec fn timestamp_model(tokens: Seq<TokenView>, pos: nat) -> Outcome<Timestamp> {
    expect_model(tokens, pos, crate::tokens::TOKEN_NAME_TIMESTAMP@, |t: TokenView| timestamp_payload(t))
}

/// The parser that takes a timestamp.
pub struct TimestampToken;

impl Parser for TimestampToken {
    type Output = Timestamp;

    type OutputView = Timestamp;

    open spec fn view_output(output: Timestamp) -> Timestamp {
        output
    }

    open spec fn model(&self, tokens: Seq<TokenView>, pos: nat) -> Outcome<Timestamp> {
        timestamp_model(tokens, pos)
    }

    fn parse(&self, scanner: &mut TokenScanner) -> (r: ParserResult<Timestamp>) {
        let i = scanner.tell();
        let t = cursor::get_next(scanner)?;
        match t {
            Token::Timestamp(ts) => Ok(*ts),
            _ => Err(unexpected(i, crate::tokens::TOKEN_NAME_TIMESTAMP, t)),
        }
    }
}

/// Takes a timestamp and returns what it holds.
pub fn parse_timestamp(scanner: &mut TokenScanner) -> (r: ParserResult<Timestamp>)
    ensures
        final(scanner).tokens() == old(scanner).tokens(),
        cursor::parsed::<TimestampToken>(final(scanner).tell(), r) == timestamp_model(
            old(scanner).tokens(),
            old(scanner).tell() as nat,
        ),
{
    TimestampToken.parse(scanner)
}

/// What an amount holds; nothing for a token of another kind.
pub open spec fn amount_payload(t: TokenView) -> Option<i64> {
    match t {
        TokenView::Amount(x) => Some(x),
        _ => None,
    }
}

/// Takes an amount.
pub open spec fn amount_model(tokens: Seq<TokenView>, pos: nat) -> Outcome<i64> {
    expect_model(tokens, pos, crate::tokens::TOKEN_NAME_AMOUNT@, |t: TokenView| amount_payload(t))
}

/// The parser that takes an amount.
pub struct AmountToken;

impl Parser for AmountToken {
    type Output = i64;

    type OutputView = i64;

    open spec fn view_output(output: i64) -> i64 {
        output
    }

    open spec fn model(&self, tokens: Seq<TokenView>, pos: nat) -> Outcome<i64> {
        amount_model(tokens, pos)
    }

    fn parse(&self, scanner: &mut TokenScanner) -> (r: ParserResult<i64>) {
        let i = scanner.tell();
        let t = cursor::get_next(scanner)?;
        match t {
            Token::Amount(x) => Ok(*x),
            _ => Err(unexpected(i, crate::tokens::TOKEN_NAME_AMOUNT, t)),
        }
    }
}

/// Takes an amount and returns what it holds.
pub fn parse_amount(scanner: &mut TokenScanner) -> (r: ParserResult<i64>)
    ensures
        final(scanner).tokens() == old(scanner).tokens(),
        cursor::parsed::<AmountToken>(final(scanner).tell(), r) == amount_model(
            old(scanner).tokens(),
            old(scanner).tell() as nat,
        ),
{
    AmountToken.parse(scanner)
}

/// What an identifier holds; nothing for a token of another kind.
pub open spec fn identifier_payload(t: TokenView) -> Option<Seq<char>> {
    match t {
        TokenView::Identifier(x) => Some(x),
        _ => None,
    }
}

/// Takes an identifier.
pub open spec fn identifier_model(tokens: Seq<TokenView>, pos: nat) -> Outcome<Seq<char>> {
    expect_model(tokens, pos, crate::tokens::TOKEN_NAME_IDENTIFIER@, |t: TokenView| identifier_payload(t))
}

/// The parser that takes an identifier.
pub struct IdentifierToken;

impl Parser for IdentifierToken {
    type Output = String;

    type OutputView = Seq<char>;

    open spec fn view_output(output: String) -> Seq<char> {
        output@
    }

    open spec fn model(&self, tokens: Seq<TokenView>, pos: nat) -> Outcome<Seq<char>> {
        identifier_model(tokens, pos)
    }

    fn parse(&self, scanner: &mut TokenScanner) -> (r: ParserResult<String>) {
        let i = scanner.tell();
        let t = cursor::get_next(scanner)?;
        match t {
            Token::Identifier(x) => Ok(x.clone()),
            _ => Err(unexpected(i, crate::tokens::TOKEN_NAME_IDENTIFIER, t)),
        }
    }
}

/// Takes an identifier and returns what it holds.
pub fn parse_identifier(scanner: &mut TokenScanner) -> (r: ParserResult<String>)
    ensures
        final(scanner).tokens() == old(scanner).tokens(),
        cursor::parsed::<IdentifierToken>(final(scanner).tell(), r) == identifier_model(
            old(scanner).tokens(),
            old(scanner).tell() as nat,
        ),
{
    IdentifierToken.parse(scanner)
}

/// What an account separator holds; nothing for a token of another kind.
pub open spec fn account_separator_payload(t: TokenView) -> Option<()> {
    match t {
        TokenView::AccountSeparator => Some(()),
        _ => None,
    }
}

/// Takes an account separator.
pub open spec fn account_separator_model(tokens: Seq<TokenView>, pos: nat) -> Outcome<()> {
    expect_model(tokens, pos, crate::tokens::TOKEN_NAME_ACCOUNT_SEPARATOR@, |t: TokenView| account_separator_payload(t))
}

/// The parser that takes an account separator.
pub struct AccountSeparatorToken;

impl Parser for AccountSeparatorToken {
    type Output = ();

    type OutputView = ();

    open spec fn view_output(output: ()) -> () {
        output
    }

    open spec fn model(&self, tokens: Seq<TokenView>, pos: nat) -> Outcome<()> {
        account_separator_model(tokens, pos)
    }

    fn parse(&self, scanner: &mut TokenScanner) -> (r: ParserResult<()>) {
        let i = scanner.tell();
        let t = cursor::get_next(scanner)?;
        match t {
            Token::AccountSeparator => Ok(()),
            _ => Err(unexpected(i, crate::tokens::TOKEN_NAME_ACCOUNT_SEPARATOR, t)),
        }
    }
}

/// Takes an account separator and returns what it holds.
pub fn parse_account_separator(scanner: &mut TokenScanner) -> (r: ParserResult<()>)
    ensures
        final(scanner).tokens() == old(scanner).tokens(),
        cursor::parsed::<AccountSeparatorToken>(final(scanner).tell(), r) == account_separator_model(
            old(scanner).tokens(),
            old(scanner).tell() as nat,
        ),
{
    AccountSeparatorToken.parse(scanner)
}

/// What a posting separator holds; nothing for a token of another kind.
pub open spec fn posting_separator_payload(t: TokenView) -> Option<()> {
    match t {
        TokenView::PostingSeparator => Some(()),
        _ => None,
    }
}

/// Takes a posting separator.
pub open spec fn posting_separator_model(tokens: Seq<TokenView>, pos: nat) -> Outcome<()> {
    expect_model(tokens, pos, crate::tokens::TOKEN_NAME_POSTING_SEPARATOR@, |t: TokenView| posting_separator_payload(t))
}

/// The parser that takes a posting separator.
pub struct PostingSeparatorToken;

impl Parser for PostingSeparatorToken {
    type Output = ();

    type OutputView = ();

    open spec fn view_output(output: ()) -> () {
        output
    }

    open spec fn model(&self, tokens: Seq<TokenView>, pos: nat) -> Outcome<()> {
        posting_separator_model(tokens, pos)
    }

    fn parse(&self, scanner: &mut TokenScanner) -> (r: ParserResult<()>) {
        let i = scanner.tell();
        let t = cursor::get_next(scanner)?;
        match t {
            Token::PostingSeparator => Ok(()),
            _ => Err(unexpected(i, crate::tokens::TOKEN_NAME_POSTING_SEPARATOR, t)),
        }
    }
}

/// Takes a posting separator and returns what it holds.
pub fn parse_posting_separator(scanner: &mut TokenScanner) -> (r: ParserResult<()>)
    ensures
        final(scanner).tokens() == old(scanner).tokens(),
        cursor::parsed::<PostingSeparatorToken>(final(scanner).tell(), r) == posting_separator_model(
            old(scanner).tokens(),
            old(scanner).tell() as nat,
        ),
{
    PostingSeparatorToken.parse(scanner)
}

/// What a line separator holds; nothing for a token of another kind.
pub open spec fn line_separator_payload(t: TokenView) -> Option<()> {
    match t {
        TokenView::LineSeparator => Some(()),
        _ => None,
    }
}

/// Takes a line separator.
pub open spec fn line_separator_model(tokens: Seq<TokenView>, pos: nat) -> Outcome<()> {
    expect_model(tokens, pos, crate::tokens::TOKEN_NAME_LINE_SEPARATOR@, |t: TokenView| line_separator_payload(t))
}

/// The parser that takes a line separator.
pub struct LineSeparatorToken;

impl Parser for LineSeparatorToken {
    type Output = ();

    type OutputView = ();

    open spec fn view_output(output: ()) -> () {
        output
    }

    open spec fn model(&self, tokens: Seq<TokenView>, pos: nat) -> Outcome<()> {
        line_separator_model(tokens, pos)
    }

    fn parse(&self, scanner: &mut TokenScanner) -> (r: ParserResult<()>) {
        let i = scanner.tell();
        let t = cursor::get_next(scanner)?;
        match t {
            Token::LineSeparator => Ok(()),
            _ => Err(unexpected(i, crate::tokens::TOKEN_NAME_LINE_SEPARATOR, t)),
        }
    }
}

/// Takes a line separator and returns what it holds.
pub fn parse_line_separator(scanner: &mut TokenScanner) -> (r: ParserResult<()>)
    ensures
        final(scanner).tokens() == old(scanner).tokens(),
        cursor::parsed::<LineSeparatorToken>(final(scanner).tell(), r) == line_separator_model(
            old(scanner).tokens(),
            old(scanner).tell() as nat,
        ),
{
    LineSeparatorToken.parse(scanner)
}

/// What front matter holds; nothing for a token of another kind.
pub open spec fn yaml_matter_payload(t: TokenView) -> Option<serde_yaml::Mapping> {
    match t {
        TokenView::YamlMatter(x) => Some(x),
        _ => None,
    }
}

/// Takes front matter.
pub open spec fn yaml_matter_model(tokens: Seq<TokenView>, pos: nat) -> Outcome<serde_yaml::Mapping> {
    expect_model(tokens, pos, crate::tokens::TOKEN_NAME_YAML_MATTER@, |t: TokenView| yaml_matter_payload(t))
}

/// The parser that takes front matter.
pub struct YamlMatterToken;

impl Parser for YamlMatterToken {
    type Output = serde_yaml::Mapping;

    type OutputView = serde_yaml::Mapping;

    open spec fn view_output(output: serde_yaml::Mapping) -> serde_yaml::Mapping {
        output
    }

    open spec fn model(&self, tokens: Seq<TokenView>, pos: nat) -> Outcome<serde_yaml::Mapping> {
        yaml_matter_model(tokens, pos)
    }

    fn parse(&self, scanner: &mut TokenScanner) -> (r: ParserResult<serde_yaml::Mapping>) {
        let i = scanner.tell();
        let t = cursor::get_next(scanner)?;
        match t {
            Token::YamlMatter(x) => Ok(x.clone()),
            _ => Err(unexpected(i, crate::tokens::TOKEN_NAME_YAML_MATTER, t)),
        }
    }
}

/// Takes front matter and returns what it holds.
pub fn parse_yaml_matter(scanner: &mut TokenScanner) -> (r: ParserResult<serde_yaml::Mapping>)
    ensures
        final(scanner).tokens() == old(scanner).tokens(),
        cursor::parsed::<YamlMatterToken>(final(scanner).tell(), r) == yaml_matter_model(
            old(scanner).tokens(),
            old(scanner).tell() as nat,
        ),
{
    YamlMatterToken.parse(scanner)
}

/// What an indent holds; nothing for a token of another kind.
pub open spec fn indent_payload(t: TokenView) -> Option<()> {
    match t {
        TokenView::Indent => Some(()),
        _ => None,
    }
}

/// Takes an indent.
pub open spec fn indent_model(tokens: Seq<TokenView>, pos: nat) -> Outcome<()> {
    expect_model(tokens, pos, crate::tokens::TOKEN_NAME_INDENT@, |t: TokenView| indent_payload(t))
}

/// The parser that takes an indent.
pub struct IndentToken;

impl Parser for IndentToken {
    type Output = ();

    type OutputView = ();

    open spec fn view_output(output: ()) -> () {
        output
    }

    open spec fn model(&self, tokens: Seq<TokenView>, pos: nat) -> Outcome<()> {
        indent_model(tokens, pos)
    }

    fn parse(&self, scanner: &mut TokenScanner) -> (r: ParserResult<()>) {
        let i = scanner.tell();
        let t = cursor::get_next(scanner)?;
        match t {
            Token::Indent => Ok(()),
            _ => Err(unexpected(i, crate::tokens::TOKEN_NAME_INDENT, t)),
        }
    }
}

/// Takes an indent and returns what it holds.
pub fn parse_indent(scanner: &mut TokenScanner) -> (r: ParserResult<()>)
    ensures
        final(scanner).tokens() == old(scanner).tokens(),
        cursor::parsed::<IndentToken>(final(scanner).tell(), r) == indent_model(
            old(scanner).tokens(),
            old(scanner).tell() as nat,
        ),
{
    IndentToken.parse(scanner)
}

/// Whether the token is the keyword `keyword`.
pub open spec fn keyword_payload(t: TokenView, keyword: Keyword) -> Option<()> {
    match t {
        TokenView::Keyword(k) => if k == keyword {
            Some(())
        } else {
            None
        },
        _ => None,
    }
}

/// Takes the keyword `keyword`.
pub open spec fn keyword_model(tokens: Seq<TokenView>, pos: nat, keyword: Keyword) -> Outcome<()> {
    expect_model(
        tokens,
        pos,
        crate::tokens::TOKEN_NAME_KEYWORD@,
        |t: TokenView| keyword_payload(t, keyword),
    )
}

/// The parser that takes the keyword `keyword`.
pub struct KeywordToken {
    pub keyword: Keyword,
}

impl Parser for KeywordToken {
    type Output = ();

    type OutputView = ();

    open spec fn view_output(output: ()) -> () {
        output
    }

    open spec fn model(&self, tokens: Seq<TokenView>, pos: nat) -> Outcome<()> {
        keyword_model(tokens, pos, self.keyword)
    }

    fn parse(&self, scanner: &mut TokenScanner) -> (r: ParserResult<()>) {
        let i = scanner.tell();
        let t = cursor::get_next(scanner)?;
        match t {
            Token::Keyword(x) => {
                if *x == self.keyword {
                    Ok(())
                } else {
                    Err(unexpected(i, crate::tokens::TOKEN_NAME_KEYWORD, t))
                }
            },
            _ => Err(unexpected(i, crate::tokens::TOKEN_NAME_KEYWORD, t)),
        }
    }
}

/// Takes the keyword `kw`.
pub fn parse_keyword(scanner: &mut TokenScanner, kw: Keyword) -> (r: ParserResult<()>)
    ensures
        final(scanner).tokens() == old(scanner).tokens(),
        cursor::parsed::<KeywordToken>(final(scanner).tell(), r) == keyword_model(
            old(scanner).tokens(),
            old(scanner).tell() as nat,
            kw,
        ),
{
    KeywordToken { keyword: kw }.parse(scanner)
}

} // verus!

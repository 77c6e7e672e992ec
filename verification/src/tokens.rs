//! The vocabulary shared by the lexer and the parser.

use vstd::prelude::*;

verus! {

/// `serde_yaml::Mapping`, the mapping that front matter decodes to. It is
/// carried through as it is: contracts see nothing inside it.
#[verifier::external_type_specification]
#[verifier::external_body]
pub struct ExMapping(serde_yaml::Mapping);

/// The number of entries of a mapping, as `Mapping::len` counts them.
pub uninterp spec fn mapping_len(m: serde_yaml::Mapping) -> nat;

/// `Mapping::clone` hands back a mapping equal to the one it was given.
pub assume_specification[ <serde_yaml::Mapping as Clone>::clone ](m: &serde_yaml::Mapping) -> (r:
    serde_yaml::Mapping)
    ensures
        r == *m,
;

/// `Mapping::new` creates a mapping without entries.
pub assume_specification[ serde_yaml::Mapping::new ]() -> (r: serde_yaml::Mapping)
    ensures
        mapping_len(r) == 0,
;

/// What contracts see of the attributes of a transaction: nothing where
/// the mapping is empty, else the mapping.
pub open spec fn attributes_view(m: serde_yaml::Mapping) -> Option<serde_yaml::Mapping> {
    if mapping_len(m) == 0 {
        None
    } else {
        Some(m)
    }
}

/// An instant together with the UTC offset it was written in.
#[derive(Clone, Copy, Debug, PartialEq, Eq, Structural)]
pub struct Timestamp {
    /// Seconds since 1970-01-01T00:00:00Z.
    pub seconds: i64,
    /// Nanoseconds past the last full second.
    pub nanoseconds: u32,
    /// Local time minus UTC, in seconds.
    pub offset_seconds: i32,
}

/// The reserved words of the journal language.
#[derive(Clone, Copy, Debug, PartialEq, Eq, Structural)]
pub enum Keyword {
    /// `set`, which opens an attribute directive.
    SetAttribute,
}

/// What the lexer turns the text into, and what the parser reads.
#[derive(Debug, PartialEq)]
pub enum Token {
    Keyword(Keyword),
    Timestamp(Timestamp),
    Amount(i64),
    Identifier(String),
    AccountSeparator,
    PostingSeparator,
    LineSeparator,
    Comment(String),
    YamlMatter(serde_yaml::Mapping),
    Indent,
    Eof,
}

/// What a token is, with its text as a sequence of characters.
pub enum TokenView {
    Keyword(Keyword),
    Timestamp(Timestamp),
    Amount(i64),
    Identifier(Seq<char>),
    AccountSeparator,
    PostingSeparator,
    LineSeparator,
    Comment(Seq<char>),
    YamlMatter(serde_yaml::Mapping),
    Indent,
    Eof,
}

impl View for Token {
    type V = TokenView;

    open spec fn view(&self) -> TokenView {
        match *self {
            Token::Keyword(k) => TokenView::Keyword(k),
            Token::Timestamp(t) => TokenView::Timestamp(t),
            Token::Amount(a) => TokenView::Amount(a),
            Token::Identifier(s) => TokenView::Identifier(s@),
            Token::AccountSeparator => TokenView::AccountSeparator,
            Token::PostingSeparator => TokenView::PostingSeparator,
            Token::LineSeparator => TokenView::LineSeparator,
            Token::Comment(s) => TokenView::Comment(s@),
            Token::YamlMatter(m) => TokenView::YamlMatter(m),
            Token::Indent => TokenView::Indent,
            Token::Eof => TokenView::Eof,
        }
    }
}

impl DeepView for Token {
    type V = TokenView;

    open spec fn deep_view(&self) -> TokenView {
        self@
    }
}

impl Clone for Token {
    fn clone(&self) -> (r: Token)
        ensures
            r == *self,
    {
        match self {
            Token::Keyword(k) => Token::Keyword(*k),
            Token::Timestamp(t) => Token::Timestamp(*t),
            Token::Amount(a) => Token::Amount(*a),
            Token::Identifier(s) => Token::Identifier(s.clone()),
            Token::AccountSeparator => Token::AccountSeparator,
            Token::PostingSeparator => Token::PostingSeparator,
            Token::LineSeparator => Token::LineSeparator,
            Token::Comment(s) => Token::Comment(s.clone()),
            Token::YamlMatter(m) => Token::YamlMatter(m.clone()),
            Token::Indent => Token::Indent,
            Token::Eof => Token::Eof,
        }
    }
}

/// The name of keywords in diagnostics.
pub const TOKEN_NAME_KEYWORD: &'static str = "keyword";

/// The name of timestamps in diagnostics.
pub const TOKEN_NAME_TIMESTAMP: &'static str = "timestamp";

/// The name of amounts in diagnostics.
pub const TOKEN_NAME_AMOUNT: &'static str = "amount";

/// The name of identifiers in diagnostics.
pub const TOKEN_NAME_IDENTIFIER: &'static str = "identifier";

/// The name of account separators in diagnostics.
pub const TOKEN_NAME_ACCOUNT_SEPARATOR: &'static str = "account separator";

/// The name of posting separators in diagnostics.
pub const TOKEN_NAME_POSTING_SEPARATOR: &'static str = "posting separator";

/// The name of line separators in diagnostics.
pub const TOKEN_NAME_LINE_SEPARATOR: &'static str = "line separator";

/// The name of comments in diagnostics.
pub const TOKEN_NAME_COMMENT: &'static str = "comment";

/// The name of front matter in diagnostics.
pub const TOKEN_NAME_YAML_MATTER: &'static str = "YAML matter";

/// The name of indents in diagnostics.
pub const TOKEN_NAME_INDENT: &'static str = "indent";

/// The name of the end of the document in diagnostics.
pub const TOKEN_NAME_EOF: &'static str = "eof";

/// The name under which a kind of token appears in diagnostics.
pub open spec fn token_name(t: TokenView) -> Seq<char> {
    match t {
        TokenView::Keyword(_) => TOKEN_NAME_KEYWORD@,
        TokenView::Timestamp(_) => TOKEN_NAME_TIMESTAMP@,
        TokenView::Amount(_) => TOKEN_NAME_AMOUNT@,
        TokenView::Identifier(_) => TOKEN_NAME_IDENTIFIER@,
        TokenView::AccountSeparator => TOKEN_NAME_ACCOUNT_SEPARATOR@,
        TokenView::PostingSeparator => TOKEN_NAME_POSTING_SEPARATOR@,
        TokenView::LineSeparator => TOKEN_NAME_LINE_SEPARATOR@,
        TokenView::Comment(_) => TOKEN_NAME_COMMENT@,
        TokenView::YamlMatter(_) => TOKEN_NAME_YAML_MATTER@,
        TokenView::Indent => TOKEN_NAME_INDENT@,
        TokenView::Eof => TOKEN_NAME_EOF@,
    }
}

impl Token {
    /// Whether the token is a comment.
    pub fn is_comment(&self) -> (r: bool)
        ensures
            r == (self@ is Comment),
    {
        match self {
            Token::Comment(_) => true,
            _ => false,
        }
    }

    /// The name under which the kind of the token appears in diagnostics.
    pub fn name(&self) -> (r: &'static str)
        ensures
            r@ == token_name(self@),
    {
        match self {
            Token::Keyword(_) => TOKEN_NAME_KEYWORD,
            Token::Timestamp(_) => TOKEN_NAME_TIMESTAMP,
            Token::Amount(_) => TOKEN_NAME_AMOUNT,
            Token::Identifier(_) => TOKEN_NAME_IDENTIFIER,
            Token::AccountSeparator => TOKEN_NAME_ACCOUNT_SEPARATOR,
            Token::PostingSeparator => TOKEN_NAME_POSTING_SEPARATOR,
            Token::LineSeparator => TOKEN_NAME_LINE_SEPARATOR,
            Token::Comment(_) => TOKEN_NAME_COMMENT,
            Token::YamlMatter(_) => TOKEN_NAME_YAML_MATTER,
            Token::Indent => TOKEN_NAME_INDENT,
            Token::Eof => TOKEN_NAME_EOF,
        }
    }
}

} // verus!

//! Lexing and parsing in one step: from the text of a document to its
//! nodes.

use crate::ast;
use crate::lex::scanner::{self, LexerError};
use crate::lex::{DecoratedToken, DecoratedTokenView};
use crate::parse::cursor::{ParserError, ParserErrorView, TokenScanner};
use crate::tokens::{Token, TokenView};
use vstd::prelude::*;
use vstd::string::StringExecFns;
use vstd::string::StringSliceAdditionalSpecFns;

verus! {

/// Where the text of a document came from, and the text.
#[derive(Clone, Debug)]
pub enum LexParseErrorContext {
    File { filename: String, content: String },
    NakedString { content: String },
}

/// What contracts see of a context.
pub enum LexParseErrorContextView {
    File { filename: Seq<char>, content: Seq<char> },
    NakedString { content: Seq<char> },
}

impl View for LexParseErrorContext {
    type V = LexParseErrorContextView;

    open spec fn view(&self) -> LexParseErrorContextView {
        match *self {
            LexParseErrorContext::File { filename, content } => LexParseErrorContextView::File {
                filename: filename@,
                content: content@,
            },
            LexParseErrorContext::NakedString { content } => LexParseErrorContextView::NakedString {
                content: content@,
            },
        }
    }
}

impl LexParseErrorContextView {
    /// The text of the document.
    pub open spec fn content(self) -> Seq<char> {
        match self {
            LexParseErrorContextView::File { filename, content } => content,
            LexParseErrorContextView::NakedString { content } => content,
        }
    }
}

impl LexParseErrorContext {
    /// The text of the document.
    pub fn content(&self) -> (r: &str)
        ensures
            r@ == self@.content(),
    {
        match self {
            Self::File { filename, content } => content.as_str(),
            Self::NakedString { content } => content.as_str(),
        }
    }

    /// A copy of the context.
    pub fn duplicate(&self) -> (r: Self)
        ensures
            r@ == self@,
    {
        match self {
            Self::File { filename, content } => Self::File {
                filename: filename.clone(),
                content: content.clone(),
            },
            Self::NakedString { content } => Self::NakedString { content: content.clone() },
        }
    }
}

/// What failed: the lexer, the parser on the tokens that the lexer gave,
/// or something else.
#[derive(Debug)]
#[allow(inconsistent_fields)]
pub enum LexParseErrorDetails {
    Lex { details: LexerError },
    Parse { tokens: Vec<DecoratedToken>, details: ParserError },
    Other(String),
}

/// What contracts see of the details of an error.
#[allow(inconsistent_fields)]
pub enum LexParseErrorDetailsView {
    Lex { details: scanner::LexerErrorView },
    Parse { tokens: Seq<DecoratedTokenView>, details: ParserErrorView },
    Other(Seq<char>),
}

impl View for LexParseErrorDetails {
    type V = LexParseErrorDetailsView;

    open spec fn view(&self) -> LexParseErrorDetailsView {
        match *self {
            LexParseErrorDetails::Lex { details } => LexParseErrorDetailsView::Lex {
                details: details@,
            },
            LexParseErrorDetails::Parse { tokens, details } => LexParseErrorDetailsView::Parse {
                tokens: tokens.deep_view(),
                details: details@,
            },
            LexParseErrorDetails::Other(message) => LexParseErrorDetailsView::Other(message@),
        }
    }
}

/// Why a text could not be lexed or parsed.
#[derive(Debug)]
pub struct LexParseError {
    pub context: LexParseErrorContext,
    pub details: LexParseErrorDetails,
}

/// What contracts see of an error.
pub struct LexParseErrorView {
    pub context: LexParseErrorContextView,
    pub details: LexParseErrorDetailsView,
}

impl View for LexParseError {
    type V = LexParseErrorView;

    open spec fn view(&self) -> LexParseErrorView {
        LexParseErrorView { context: self.context@, details: self.details@ }
    }
}

/// The result of lexing and parsing.
pub type LexParseResult<T> = Result<T, Box<LexParseError>>;

/// The tokens without their locations.
pub open spec fn plain_tokens(tokens: Seq<DecoratedTokenView>) -> Seq<TokenView> {
    Seq::new(tokens.len(), |i: int| tokens[i].token)
}

/// The nodes of a document, or what failed: the bytes of the text are
/// lexed, and the tokens are parsed node by node up to the `Eof` token. The first error
/// ends it all.
pub open spec fn lexparse_model(content: Seq<char>) -> Result<
    Seq<ast::ASTNodeView>,
    LexParseErrorDetailsView,
> {
    match crate::lex::lex_model(vstd::utf8::encode_utf8(content)) {
        Err(e) => Err(LexParseErrorDetailsView::Lex { details: e }),
        Ok(tokens) => match crate::parse::document_model(plain_tokens(tokens)) {
            Ok(nodes) => Ok(nodes),
            Err(e) => Err(LexParseErrorDetailsView::Parse { tokens, details: e }),
        },
    }
}

/// Copies the tokens without their locations.
fn strip_locations(tokens: &Vec<DecoratedToken>) -> (r: Vec<Token>)
    ensures
        r.deep_view() == plain_tokens(tokens.deep_view()),
{
    let mut r: Vec<Token> = Vec::new();
    let mut i: usize = 0;
    while i < tokens.len()
        invariant
            i <= tokens.len(),
            r.len() == i,
            forall|k: int| 0 <= k < i ==> (#[trigger] r@[k])@ == tokens@[k]@.token,
        decreases tokens.len() - i,
    {
        r.push(tokens[i].token().clone());
        i += 1;
    }
    proof {
        assert(r.deep_view() =~= plain_tokens(tokens.deep_view()));
    }
    r
}

/// Lexes and parses the text of `context`.
pub fn lexparse(context: LexParseErrorContext) -> (r: LexParseResult<Vec<ast::ASTNode>>)
    ensures
        match r {
            Ok(nodes) => lexparse_model(context@.content()) == Ok::<
                Seq<ast::ASTNodeView>,
                LexParseErrorDetailsView,
            >(nodes.deep_view()),
            Err(e) => e@.context == context@ && lexparse_model(context@.content()) == Err::<
                Seq<ast::ASTNodeView>,
                LexParseErrorDetailsView,
            >(e@.details),
        },
{
    let tokens = match crate::lex::lex_string(context.content()) {
        Ok(tokens) => tokens,
        Err(e) => {
            return Err(
                Box::new(
                    LexParseError {
                        context: context.duplicate(),
                        details: LexParseErrorDetails::Lex { details: e },
                    },
                ),
            );
        },
    };
    let the_tokens = strip_locations(&tokens);
    let mut scanner = TokenScanner::from_slice(the_tokens.as_slice());
    match crate::parse::parse_nodes(&mut scanner) {
        Ok(nodes) => Ok(nodes),
        Err(details) => Err(
            Box::new(
                LexParseError {
                    context: context.duplicate(),
                    details: LexParseErrorDetails::Parse { tokens, details },
                },
            ),
        ),
    }
}

/// Lexes and parses a document given as a string.
pub fn lexparse_string(content: &str) -> (r: LexParseResult<Vec<ast::ASTNode>>)
    ensures
        match r {
            Ok(nodes) => lexparse_model(content@) == Ok::<
                Seq<ast::ASTNodeView>,
                LexParseErrorDetailsView,
            >(nodes.deep_view()),
            Err(e) => e@.context == (LexParseErrorContextView::NakedString { content: content@ })
                && lexparse_model(content@) == Err::<
                Seq<ast::ASTNodeView>,
                LexParseErrorDetailsView,
            >(e@.details),
        },
{
    lexparse(LexParseErrorContext::NakedString { content: String::from_str(content) })
}

/// The line and the column of the byte offset `location` in a text of
/// which `line` line feeds lie before the part `rest`, the last of them
/// just before the byte offset `start`; `at` is the byte offset of `rest`.
/// Lines and columns count from 0, and a column counts bytes.
pub open spec fn position_from(
    rest: Seq<char>,
    at: nat,
    location: nat,
    line: nat,
    start: nat,
) -> (nat, nat)
    decreases rest.len(),
{
    if rest.len() == 0 || at >= location {
        (line, (location - start) as nat)
    } else if rest[0] == '\n' {
        position_from(rest.drop_first(), at + 1, location, line + 1, at + 1)
    } else {
        position_from(
            rest.drop_first(),
            at + scanner::utf8_width(rest[0]),
            location,
            line,
            start,
        )
    }
}

/// The line and the column of the byte offset `location` in `content`:
/// the line is the number of line feeds before the offset, the column the
/// number of bytes between the last of them and the offset. An offset
/// behind the text lies on the last line.
pub open spec fn position_in(content: Seq<char>, location: nat) -> (nat, nat) {
    position_from(content, 0, location, 0, 0)
}

/// The byte offset in the source at which an error points: that of the
/// lexer error, or that of the token at which the parser failed, which is
/// the end of the text where the parser failed behind the last token.
pub open spec fn raw_location(e: LexParseErrorView) -> Option<nat> {
    match e.details {
        LexParseErrorDetailsView::Lex { details } => Some(details.location),
        LexParseErrorDetailsView::Parse { tokens, details } => Some(
            if details.location < tokens.len() {
                tokens[details.location as int].location
            } else {
                scanner::utf8_len(e.context.content())
            },
        ),
        LexParseErrorDetailsView::Other(_) => None,
    }
}

/// Resolves a byte offset in `content` to a line and a column.
pub fn get_position_in_content(content: &str, location: usize) -> (r: (usize, usize))
    ensures
        r.0 == position_in(content@, location as nat).0,
        r.1 == position_in(content@, location as nat).1,
{
    let chars = scanner::chars_of(content);
    let total = content.as_bytes().len();
    let ghost text = content@;
    let mut at: usize = 0;
    let mut line: usize = 0;
    let mut start: usize = 0;
    let mut i: usize = 0;
    proof {
        assert(text.skip(0) =~= text);
        assert(text.take(0) =~= Seq::<char>::empty());
        assert(scanner::utf8_len(Seq::<char>::empty()) == 0);
    }
    while i < chars.len() && at < location
        invariant
            chars@ == text,
            total == scanner::utf8_len(text),
            i <= chars.len(),
            start <= location,
            line <= i,
            at == scanner::utf8_len(text.take(i as int)),
            position_in(text, location as nat) == position_from(
                text.skip(i as int),
                at as nat,
                location as nat,
                line as nat,
                start as nat,
            ),
        decreases chars.len() - i,
    {
        let c = chars[i];
        proof {
            assert(text.skip(i as int).drop_first() =~= text.skip(i + 1));
            assert(text.take(i + 1) =~= text.take(i as int).push(c));
            scanner::lemma_utf8_len_push(text.take(i as int), c);
            assert(text =~= text.take(i + 1) + text.skip(i + 1));
            scanner::lemma_utf8_len_concat(text.take(i + 1), text.skip(i + 1));
        }
        if c == '\n' {
            at = at + 1;
            line = line + 1;
            start = at;
        } else {
            at = at + scanner::char_width(c);
        }
        i += 1;
    }
    (line, location - start)
}

impl LexParseError {
    /// The byte offset in the source at which the error points, if it
    /// points at one.
    pub fn get_raw_location(&self) -> (r: Option<usize>)
        ensures
            match r {
                Some(location) => raw_location(self@) == Some(location as nat),
                None => raw_location(self@) is None,
            },
    {
        match &self.details {
            LexParseErrorDetails::Parse { tokens, details } => {
                if details.location < tokens.len() {
                    Some(tokens[details.location].location())
                } else {
                    Some(self.context.content().as_bytes().len())
                }
            },
            LexParseErrorDetails::Lex { details } => Some(details.location),
            LexParseErrorDetails::Other(_) => None,
        }
    }

    /// The line and the column at which the error points, if it points at
    /// a place.
    pub fn get_position(&self) -> (r: Option<(usize, usize)>)
        ensures
            match r {
                Some((line, column)) => raw_location(self@) matches Some(location) && position_in(
                    self@.context.content(),
                    location,
                ) == (line as nat, column as nat),
                None => raw_location(self@) is None,
            },
    {
        match self.get_raw_location() {
            Some(location) => Some(get_position_in_content(self.context.content(), location)),
            None => None,
        }
    }
}

} // verus!

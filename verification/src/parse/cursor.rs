//! The parser's cursor over the tokens, its errors, and what a parser is.

use crate::tokens::{Token, TokenView};
use vstd::prelude::*;
use vstd::string::StringExecFns;

verus! {

/// What went wrong while parsing.
#[derive(Debug)]
pub enum ParserErrorDetails {
    /// Every alternative failed; the errors of all of them, in order.
    BranchingError(String, Vec<ParserError>),
    /// A rule failed inside the construct that the text names.
    Nested(String, Box<ParserError>),
    /// Another kind of token was expected than the one found.
    ExpectedSomethingElse(String, Token),
    /// The cursor was asked to leave the tokens.
    IllegalImplementation(String),
    /// We consumed all tokens without seeing an EOF token.
    Incomplete,
    Other(String),
}

/// The main error type for the parser stage.
#[derive(Debug)]
pub struct ParserError {
    /// The location of the token at which the error occurred.
    pub location: usize,
    /// Details about the exact error.
    pub details: ParserErrorDetails,
}

/// What contracts see of the details of a parser error.
pub enum ParserErrorDetailsView {
    BranchingError(Seq<char>, Seq<ParserErrorView>),
    Nested(Seq<char>, Box<ParserErrorView>),
    ExpectedSomethingElse(Seq<char>, TokenView),
    IllegalImplementation(Seq<char>),
    Incomplete,
    Other(Seq<char>),
}

/// What contracts see of a parser error.
pub struct ParserErrorView {
    pub location: nat,
    pub details: ParserErrorDetailsView,
}

/// What contracts see of the error `e`.
pub open spec fn error_view(e: ParserError) -> ParserErrorView
    decreases e, 1int,
{
    ParserErrorView { location: e.location as nat, details: details_view(e.details) }
}

/// What contracts see of the details `d`.
pub open spec fn details_view(d: ParserErrorDetails) -> ParserErrorDetailsView
    decreases d, 0int,
{
    match d {
        ParserErrorDetails::BranchingError(message, errors) => ParserErrorDetailsView::BranchingError(
            message@,
            Seq::new(
                errors.len() as nat,
                |i: int|
                    if 0 <= i < errors.len() {
                        error_view(errors[i])
                    } else {
                        arbitrary()
                    },
            ),
        ),
        ParserErrorDetails::Nested(message, inner) => ParserErrorDetailsView::Nested(
            message@,
            Box::new(error_view(*inner)),
        ),
        ParserErrorDetails::ExpectedSomethingElse(expected, found) => {
            ParserErrorDetailsView::ExpectedSomethingElse(expected@, found@)
        },
        ParserErrorDetails::IllegalImplementation(message) => {
            ParserErrorDetailsView::IllegalImplementation(message@)
        },
        ParserErrorDetails::Incomplete => ParserErrorDetailsView::Incomplete,
        ParserErrorDetails::Other(message) => ParserErrorDetailsView::Other(message@),
    }
}

impl View for ParserError {
    type V = ParserErrorView;

    open spec fn view(&self) -> ParserErrorView {
        error_view(*self)
    }
}

impl DeepView for ParserError {
    type V = ParserErrorView;

    open spec fn deep_view(&self) -> ParserErrorView {
        error_view(*self)
    }
}

impl ParserError {
    /// An error that holds only a message.
    pub fn from_str(s: &str) -> (r: Self)
        ensures
            r@ == (ParserErrorView { location: 0, details: ParserErrorDetailsView::Other(s@) }),
    {
        ParserError { location: 0, details: ParserErrorDetails::Other(String::from_str(s)) }
    }
}

/// The result of a parser.
pub type ParserResult<T> = Result<T, ParserError>;

/// A cursor over a sequence of tokens: the tokens and a position, which
/// is a plain number and may lie behind the last token. Backtracking is
/// `seek` to a position that `tell` gave earlier.
pub struct TokenScanner {
    tokens: Vec<Token>,
    location: usize,
}

/// The position one further on, as far as positions go.
pub open spec fn moved_on(pos: nat) -> nat {
    if pos < usize::MAX {
        pos + 1
    } else {
        pos
    }
}

impl TokenScanner {
    /// The tokens that the cursor moves over.
    pub closed spec fn tokens(&self) -> Seq<TokenView> {
        self.tokens.deep_view()
    }

    /// The position of the cursor: the number of tokens before it.
    pub closed spec fn spec_tell(&self) -> usize {
        self.location
    }

    /// A cursor at the start of a copy of `slice`.
    pub fn from_slice(slice: &[Token]) -> (r: Self)
        ensures
            r.tokens() == slice.deep_view(),
            r.tell() == 0,
    {
        let mut tokens: Vec<Token> = Vec::new();
        let mut i: usize = 0;
        while i < slice.len()
            invariant
                i <= slice.len(),
                tokens.len() == i,
                forall|k: int| 0 <= k < i ==> (#[trigger] tokens@[k])@ == slice@[k]@,
            decreases slice.len() - i,
        {
            tokens.push(slice[i].clone());
            i += 1;
        }
        proof {
            assert(tokens.deep_view() =~= slice.deep_view());
        }
        TokenScanner { tokens, location: 0 }
    }

    /// The position of the cursor: the number of tokens before it.
    #[verifier::when_used_as_spec(spec_tell)]
    pub fn tell(&self) -> (r: usize)
        ensures
            r == self.spec_tell(),
    {
        self.location
    }

    /// The number of tokens.
    pub fn len(&self) -> (r: usize)
        ensures
            r == self.tokens().len(),
    {
        self.tokens.len()
    }

    /// The token under the cursor, which stays where it is.
    pub fn peek(&self) -> (r: Option<&Token>)
        ensures
            match r {
                Some(t) => self.tell() < self.tokens().len() && t@ == self.tokens()[
                    self.tell() as int
                ] && self.tell() < usize::MAX,
                None => self.tell() >= self.tokens().len(),
            },
    {
        if self.location < self.tokens.len() {
            Some(&self.tokens[self.location])
        } else {
            None
        }
    }

    /// The token under the cursor, which moves on by one, whether there is
    /// a token or not.
    pub fn next(&mut self) -> (r: Option<&Token>)
        ensures
            final(self).tokens() == old(self).tokens(),
            final(self).tell() == moved_on(old(self).tell() as nat),
            match r {
                Some(t) => old(self).tell() < old(self).tokens().len() && t@ == old(self).tokens()[
                    old(self).tell() as int
                ] && final(self).tell() == old(self).tell() + 1,
                None => old(self).tell() >= old(self).tokens().len(),
            },
    {
        let at = self.location;
        if self.location < usize::MAX {
            self.location += 1;
        }
        if at < self.tokens.len() {
            Some(&self.tokens[at])
        } else {
            None
        }
    }

    /// Moves the cursor to position `i`, wherever that lies.
    pub fn seek(&mut self, i: usize) -> (r: ParserResult<()>)
        ensures
            r is Ok,
            final(self).tokens() == old(self).tokens(),
            final(self).tell() == i,
    {
        self.location = i;
        Ok(())
    }

    /// Moves the cursor on by one, whether there is a token under it or
    /// not.
    pub fn advance(&mut self) -> (r: ParserResult<()>)
        requires
            old(self).tell() < usize::MAX,
        ensures
            r is Ok,
            final(self).tokens() == old(self).tokens(),
            final(self).tell() == old(self).tell() + 1,
    {
        self.seek(self.location + 1)
    }
}

/// The error of tokens that end where one more was needed.
pub open spec fn incomplete(location: nat) -> ParserErrorView {
    ParserErrorView { location, details: ParserErrorDetailsView::Incomplete }
}

/// The token under the cursor, which stays where it is.
pub fn peek_next(scanner: &TokenScanner) -> (r: ParserResult<&Token>)
    ensures
        match r {
            Ok(t) => scanner.tell() < scanner.tokens().len() && t@ == scanner.tokens()[
                scanner.tell() as int
            ] && scanner.tell() < usize::MAX,
            Err(e) => scanner.tell() >= scanner.tokens().len() && e@ == incomplete(
                scanner.tell() as nat,
            ),
        },
{
    match scanner.peek() {
        None => Err(ParserError { location: scanner.tell(), details: ParserErrorDetails::Incomplete }),
        Some(t) => Ok(t),
    }
}

/// The token under the cursor, which moves on by one; `Incomplete` where
/// there is no token.
pub fn get_next(scanner: &mut TokenScanner) -> (r: ParserResult<&Token>)
    ensures
        final(scanner).tokens() == old(scanner).tokens(),
        match r {
            Ok(t) => old(scanner).tell() < old(scanner).tokens().len() && t@ == old(
                scanner,
            ).tokens()[old(scanner).tell() as int] && final(scanner).tell() == old(scanner).tell()
                + 1,
            Err(e) => old(scanner).tell() >= old(scanner).tokens().len() && e@ == incomplete(
                old(scanner).tell() as nat,
            ),
        },
        final(scanner).tell() == moved_on(old(scanner).tell() as nat),
{
    let location = scanner.tell();
    match scanner.next() {
        None => Err(ParserError { location, details: ParserErrorDetails::Incomplete }),
        Some(t) => Ok(t),
    }
}

/// Where a parser leaves the cursor, and what it returns.
pub struct Outcome<V> {
    pub end: nat,
    pub result: Result<V, ParserErrorView>,
}

/// A parser: it moves a cursor over tokens and returns a value or an
/// error. What it does depends on the tokens and on the position of the
/// cursor alone, and `model` says what that is.
pub trait Parser {
    type Output;

    /// What contracts see of an output.
    type OutputView;

    /// What contracts see of `output`. A parser that is to be verified
    /// says so itself.
    open spec fn view_output(output: Self::Output) -> Self::OutputView {
        arbitrary()
    }

    /// What the parser does on `tokens` with the cursor at `pos`. A parser
    /// that is to be verified says so itself.
    open spec fn model(&self, tokens: Seq<TokenView>, pos: nat) -> Outcome<Self::OutputView> {
        arbitrary()
    }

    fn parse(&self, scanner: &mut TokenScanner) -> (r: ParserResult<Self::Output>)
        ensures
            final(scanner).tokens() == old(scanner).tokens(),
            final(scanner).tell() == self.model(old(scanner).tokens(), old(scanner).tell() as nat).end,
            match r {
                Ok(output) => self.model(old(scanner).tokens(), old(scanner).tell() as nat).result
                    == Ok::<Self::OutputView, ParserErrorView>(Self::view_output(output)),
                Err(e) => self.model(old(scanner).tokens(), old(scanner).tell() as nat).result
                    == Err::<Self::OutputView, ParserErrorView>(e@),
            },
    ;
}

/// The outcome that a result and the cursor's position after it make.
pub open spec fn parsed<P: Parser + ?Sized>(end: usize, r: ParserResult<P::Output>) -> Outcome<
    P::OutputView,
> {
    Outcome {
        end: end as nat,
        result: match r {
            Ok(output) => Ok(P::view_output(output)),
            Err(e) => Err(e@),
        },
    }
}

} // verus!

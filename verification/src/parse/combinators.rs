//! Combinators: parsers made of parsers. Each of them leaves the cursor
//! where it found it when it fails, and when it does not take what it
//! tried.

use crate::parse::cursor::{
    self, Outcome, Parser, ParserError, ParserErrorDetails, ParserErrorDetailsView, ParserErrorView,
    ParserResult, TokenScanner,
};
use crate::tokens::TokenView;
use vstd::prelude::*;
use vstd::string::StringExecFns;

verus! {

/// What contracts see of a list of outputs.
pub open spec fn view_outputs<P: Parser>(outputs: Vec<P::Output>) -> Seq<P::OutputView> {
    Seq::new(outputs.len() as nat, |i: int| P::view_output(outputs[i]))
}

/// Repetition: `p` as often as it succeeds and takes at least one token;
/// the results in order. The cursor ends behind the last repetition that
/// counted.
pub open spec fn many_model<P: Parser>(p: P, tokens: Seq<TokenView>, pos: nat) -> Outcome<
    Seq<P::OutputView>,
>
    decreases tokens.len() - pos,
{
    let first = p.model(tokens, pos);
    if first.result is Ok && pos < first.end <= tokens.len() {
        let rest = many_model(p, tokens, first.end);
        Outcome {
            end: rest.end,
            result: Ok(seq![first.result->Ok_0] + rest.result->Ok_0),
        }
    } else {
        Outcome { end: pos, result: Ok(Seq::empty()) }
    }
}

/// Repetition never fails.
pub proof fn lemma_many_succeeds<P: Parser>(p: P, tokens: Seq<TokenView>, pos: nat)
    ensures
        many_model(p, tokens, pos).result is Ok,
    decreases tokens.len() - pos,
{
    let first = p.model(tokens, pos);
    if first.result is Ok && pos < first.end <= tokens.len() {
        lemma_many_succeeds(p, tokens, first.end);
    }
}

/// The parser that repeats `parser`.
pub struct ManyParser<P> {
    pub parser: P,
}

impl<P: Parser> Parser for ManyParser<P> {
    type Output = Vec<P::Output>;

    type OutputView = Seq<P::OutputView>;

    open spec fn view_output(output: Vec<P::Output>) -> Seq<P::OutputView> {
        view_outputs::<P>(output)
    }

    open spec fn model(&self, tokens: Seq<TokenView>, pos: nat) -> Outcome<Seq<P::OutputView>> {
        many_model(self.parser, tokens, pos)
    }

    fn parse(&self, scanner: &mut TokenScanner) -> (r: ParserResult<Vec<P::Output>>)
        ensures
            r is Ok,
    {
        let ghost tokens = scanner.tokens();
        let ghost start = scanner.tell() as nat;
        let mut parsed: Vec<P::Output> = Vec::new();
        proof {
            lemma_many_succeeds(self.parser, tokens, start);
            assert(view_outputs::<P>(parsed) =~= Seq::empty());
            assert(Seq::<P::OutputView>::empty() + many_model(
                self.parser,
                tokens,
                start,
            ).result->Ok_0 =~= many_model(self.parser, tokens, start).result->Ok_0);
        }
        loop
            invariant
                scanner.tokens() == tokens,
                tokens == old(scanner).tokens(),
                start == old(scanner).tell(),
                many_model(self.parser, tokens, start).end == many_model(
                    self.parser,
                    tokens,
                    scanner.tell() as nat,
                ).end,
                many_model(self.parser, tokens, start).result->Ok_0 == view_outputs::<P>(parsed)
                    + many_model(self.parser, tokens, scanner.tell() as nat).result->Ok_0,
                many_model(self.parser, tokens, start).result is Ok,
            ensures
                scanner.tokens() == tokens,
                many_model(self.parser, tokens, start).end == scanner.tell(),
                many_model(self.parser, tokens, start).result == Ok::<
                    Seq<P::OutputView>,
                    ParserErrorView,
                >(view_outputs::<P>(parsed)),
            decreases tokens.len() - scanner.tell(),
        {
            let i = scanner.tell();
            let ghost before = view_outputs::<P>(parsed);
            let attempt = self.parser.parse(scanner);
            let taken = match attempt {
                Ok(x) => if scanner.tell() > i && scanner.tell() <= scanner.len() {
                    Some(x)
                } else {
                    None
                },
                Err(_) => None,
            };
            match taken {
                Some(x) => {
                    parsed.push(x);
                    proof {
                        let first = self.parser.model(tokens, i as nat);
                        let rest = many_model(self.parser, tokens, first.end);
                        lemma_many_succeeds(self.parser, tokens, first.end);
                        assert(view_outputs::<P>(parsed) =~= before.push(P::view_output(x)));
                        assert(before + (seq![first.result->Ok_0] + rest.result->Ok_0)
                            =~= before.push(P::view_output(x)) + rest.result->Ok_0);
                    }
                },
                None => {
                    match scanner.seek(i) {
                        Ok(()) => {},
                        Err(e) => {
                            return Err(e);
                        },
                    }
                    proof {
                        assert(before + Seq::<P::OutputView>::empty() =~= before);
                    }
                    break ;
                },
            }
        }
        Ok(parsed)
    }
}

/// Repeats `parser` as often as it succeeds.
pub fn many<P: Parser>(parser: P) -> (r: ManyParser<P>)
    ensures
        r.parser == parser,
{
    ManyParser { parser }
}

/// Option: the result of `p` where it succeeds; where it fails, nothing,
/// with the cursor back where it was.
pub open spec fn optional_model<P: Parser>(p: P, tokens: Seq<TokenView>, pos: nat) -> Outcome<
    Option<P::OutputView>,
> {
    let attempt = p.model(tokens, pos);
    match attempt.result {
        Ok(output) => Outcome { end: attempt.end, result: Ok(Some(output)) },
        Err(_) => Outcome { end: pos, result: Ok(None) },
    }
}

/// The parser that tries `parser`.
pub struct OptionalParser<P> {
    pub parser: P,
}

impl<P: Parser> Parser for OptionalParser<P> {
    type Output = Option<P::Output>;

    type OutputView = Option<P::OutputView>;

    open spec fn view_output(output: Option<P::Output>) -> Option<P::OutputView> {
        match output {
            Some(x) => Some(P::view_output(x)),
            None => None,
        }
    }

    open spec fn model(&self, tokens: Seq<TokenView>, pos: nat) -> Outcome<Option<P::OutputView>> {
        optional_model(self.parser, tokens, pos)
    }

    fn parse(&self, scanner: &mut TokenScanner) -> (r: ParserResult<Option<P::Output>>)
        ensures
            r is Ok,
    {
        let i = scanner.tell();
        match self.parser.parse(scanner) {
            Ok(x) => Ok(Some(x)),
            Err(_) => {
                match scanner.seek(i) {
                    Ok(()) => {},
                    Err(e) => {
                        return Err(e);
                    },
                }
                Ok(None)
            },
        }
    }
}

/// Tries `parser`, and yields nothing where it fails.
pub fn optional<P: Parser>(parser: P) -> (r: OptionalParser<P>)
    ensures
        r.parser == parser,
{
    OptionalParser { parser }
}

/// Sequence that keeps the second result. The first failure is handed on
/// as it is, and the cursor is back where it was.
pub open spec fn preceded_model<P1: Parser, P2: Parser>(
    p1: P1,
    p2: P2,
    tokens: Seq<TokenView>,
    pos: nat,
) -> Outcome<P2::OutputView> {
    let first = p1.model(tokens, pos);
    let second = p2.model(tokens, first.end);
    match first.result {
        Ok(_) => match second.result {
            Ok(output) => second,
            Err(e) => Outcome { end: pos, result: Err(e) },
        },
        Err(e) => Outcome { end: pos, result: Err(e) },
    }
}

/// The parser that runs `p1` and then `p2`, and keeps the result of `p2`.
pub struct PrecededParser<P1, P2> {
    pub p1: P1,
    pub p2: P2,
}

impl<P1: Parser, P2: Parser> Parser for PrecededParser<P1, P2> {
    type Output = P2::Output;

    type OutputView = P2::OutputView;

    open spec fn view_output(output: P2::Output) -> P2::OutputView {
        P2::view_output(output)
    }

    open spec fn model(&self, tokens: Seq<TokenView>, pos: nat) -> Outcome<P2::OutputView> {
        preceded_model(self.p1, self.p2, tokens, pos)
    }

    fn parse(&self, scanner: &mut TokenScanner) -> (r: ParserResult<P2::Output>) {
        let i = scanner.tell();
        match self.p1.parse(scanner) {
            Ok(_) => {},
            Err(e) => {
                match scanner.seek(i) {
                    Ok(()) => {},
                    Err(illegal) => {
                        return Err(illegal);
                    },
                }
                return Err(e);
            },
        }
        match self.p2.parse(scanner) {
            Ok(x) => Ok(x),
            Err(e) => {
                match scanner.seek(i) {
                    Ok(()) => {},
                    Err(illegal) => {
                        return Err(illegal);
                    },
                }
                Err(e)
            },
        }
    }
}

/// Runs `p1` and then `p2`, and keeps the result of `p2`.
pub fn preceded<P1: Parser, P2: Parser>(p1: P1, p2: P2) -> (r: PrecededParser<P1, P2>)
    ensures
        r.p1 == p1,
        r.p2 == p2,
{
    PrecededParser { p1, p2 }
}

/// Sequence that keeps the first result. The first failure is handed on
/// as it is, and the cursor is back where it was.
pub open spec fn terminated_model<P1: Parser, P2: Parser>(
    p1: P1,
    p2: P2,
    tokens: Seq<TokenView>,
    pos: nat,
) -> Outcome<P1::OutputView> {
    let first = p1.model(tokens, pos);
    match first.result {
        Ok(output) => {
            let second = p2.model(tokens, first.end);
            match second.result {
                Ok(_) => Outcome { end: second.end, result: Ok(output) },
                Err(e) => Outcome { end: pos, result: Err(e) },
            }
        },
        Err(e) => Outcome { end: pos, result: Err(e) },
    }
}

/// The parser that runs `p1` and then `p2`, and keeps the result of `p1`.
pub struct TerminatedParser<P1, P2> {
    pub p1: P1,
    pub p2: P2,
}

impl<P1: Parser, P2: Parser> Parser for TerminatedParser<P1, P2> {
    type Output = P1::Output;

    type OutputView = P1::OutputView;

    open spec fn view_output(output: P1::Output) -> P1::OutputView {
        P1::view_output(output)
    }

    open spec fn model(&self, tokens: Seq<TokenView>, pos: nat) -> Outcome<P1::OutputView> {
        terminated_model(self.p1, self.p2, tokens, pos)
    }

    fn parse(&self, scanner: &mut TokenScanner) -> (r: ParserResult<P1::Output>) {
        let i = scanner.tell();
        let x = match self.p1.parse(scanner) {
            Ok(x) => x,
            Err(e) => {
                match scanner.seek(i) {
                    Ok(()) => {},
                    Err(illegal) => {
                        return Err(illegal);
                    },
                }
                return Err(e);
            },
        };
        match self.p2.parse(scanner) {
            Ok(_) => Ok(x),
            Err(e) => {
                match scanner.seek(i) {
                    Ok(()) => {},
                    Err(illegal) => {
                        return Err(illegal);
                    },
                }
                Err(e)
            },
        }
    }
}

/// Runs `p1` and then `p2`, and keeps the result of `p1`.
pub fn terminated<P1: Parser, P2: Parser>(p1: P1, p2: P2) -> (r: TerminatedParser<P1, P2>)
    ensures
        r.p1 == p1,
        r.p2 == p2,
{
    TerminatedParser { p1, p2 }
}

/// The error of a rule that failed inside the construct that `context`
/// names, which started at `location`.
pub open spec fn nested_error(location: nat, context: Seq<char>, inner: ParserErrorView)
    -> ParserErrorView {
    ParserErrorView { location, details: ParserErrorDetailsView::Nested(context, Box::new(inner)) }
}

/// Attribution: the outcome of `p`, with a failure wrapped into an error
/// that names the enclosing construct and the position at which it
/// started. After a failure the cursor is back at that position.
pub open spec fn with_context_model<P: Parser>(
    context: Seq<char>,
    p: P,
    tokens: Seq<TokenView>,
    pos: nat,
) -> Outcome<P::OutputView> {
    let attempt = p.model(tokens, pos);
    match attempt.result {
        Ok(output) => attempt,
        Err(e) => Outcome { end: pos, result: Err(nested_error(pos, context, e)) },
    }
}

/// The parser that runs `parser` and attributes its failure to `context`.
pub struct WithContextParser<P> {
    pub context: String,
    pub parser: P,
}

impl<P: Parser> Parser for WithContextParser<P> {
    type Output = P::Output;

    type OutputView = P::OutputView;

    open spec fn view_output(output: P::Output) -> P::OutputView {
        P::view_output(output)
    }

    open spec fn model(&self, tokens: Seq<TokenView>, pos: nat) -> Outcome<P::OutputView> {
        with_context_model(self.context@, self.parser, tokens, pos)
    }

    fn parse(&self, scanner: &mut TokenScanner) -> (r: ParserResult<P::Output>) {
        let i = scanner.tell();
        match self.parser.parse(scanner) {
            Ok(x) => Ok(x),
            Err(e) => {
                match scanner.seek(i) {
                    Ok(()) => {},
                    Err(illegal) => {
                        return Err(illegal);
                    },
                }
                Err(
                    ParserError {
                        location: i,
                        details: ParserErrorDetails::Nested(self.context.clone(), Box::new(e)),
                    },
                )
            },
        }
    }
}

/// Runs `parser` and attributes its failure to the construct that `context` names.
pub fn with_context<P: Parser>(context: &str, parser: P) -> (r: WithContextParser<P>)
    ensures
        r.context@ == context@,
        r.parser == parser,
{
    WithContextParser { context: String::from_str(context), parser }
}

/// The message of the error of alternatives that all failed.
pub const ALL_PARSERS_FAILED: &'static str = "All parsers failed.";

/// The error of alternatives that all failed, with the error of each.
pub open spec fn branching_error(location: nat, errors: Seq<ParserErrorView>) -> ParserErrorView {
    ParserErrorView {
        location,
        details: ParserErrorDetailsView::BranchingError(ALL_PARSERS_FAILED@, errors),
    }
}

/// Alternatives from the `k`-th on, each tried from `pos`, after those
/// before have failed with `errors`.
pub open spec fn one_of_from<P: Parser>(
    ps: Seq<P>,
    tokens: Seq<TokenView>,
    pos: nat,
    k: nat,
    errors: Seq<ParserErrorView>,
) -> Outcome<P::OutputView>
    decreases ps.len() - k,
{
    if k >= ps.len() {
        Outcome { end: pos, result: Err(branching_error(pos, errors)) }
    } else {
        let attempt = ps[k as int].model(tokens, pos);
        match attempt.result {
            Ok(output) => Outcome { end: attempt.end, result: Ok(output) },
            Err(e) => one_of_from(ps, tokens, pos, k + 1, errors.push(e)),
        }
    }
}

/// Alternatives: each is tried from the same position, in order; the first
/// that succeeds wins. Where all fail, the cursor is back where it was and
/// the error holds the error of every alternative.
pub open spec fn one_of_model<P: Parser>(ps: Seq<P>, tokens: Seq<TokenView>, pos: nat) -> Outcome<
    P::OutputView,
> {
    one_of_from(ps, tokens, pos, 0, Seq::empty())
}

/// What contracts see of a list of errors.
pub open spec fn view_errors(errors: Vec<ParserError>) -> Seq<ParserErrorView> {
    Seq::new(errors.len() as nat, |i: int| errors[i]@)
}

/// The parser that tries each of `parsers`.
pub struct OneOfParser<'a, P> {
    pub parsers: &'a [P],
}

impl<'a, P: Parser> Parser for OneOfParser<'a, P> {
    type Output = P::Output;

    type OutputView = P::OutputView;

    open spec fn view_output(output: P::Output) -> P::OutputView {
        P::view_output(output)
    }

    open spec fn model(&self, tokens: Seq<TokenView>, pos: nat) -> Outcome<P::OutputView> {
        one_of_model(self.parsers@, tokens, pos)
    }

    fn parse(&self, scanner: &mut TokenScanner) -> (r: ParserResult<P::Output>) {
        let ghost tokens = scanner.tokens();
        let ghost ps = self.parsers@;
        let i = scanner.tell();
        let mut errors: Vec<ParserError> = Vec::new();
        let mut k: usize = 0;
        proof {
            assert(view_errors(errors) =~= Seq::empty());
        }
        while k < self.parsers.len()
            invariant
                k <= self.parsers.len(),
                ps == self.parsers@,
                scanner.tokens() == tokens,
                tokens == old(scanner).tokens(),
                i == old(scanner).tell(),
                one_of_model(ps, tokens, i as nat) == one_of_from(
                    ps,
                    tokens,
                    i as nat,
                    k as nat,
                    view_errors(errors),
                ),
            decreases self.parsers.len() - k,
        {
            match scanner.seek(i) {
                Ok(()) => {},
                Err(e) => {
                    return Err(e);
                },
            }
            let ghost before = view_errors(errors);
            match self.parsers[k].parse(scanner) {
                Ok(x) => {
                    return Ok(x);
                },
                Err(e) => {
                    errors.push(e);
                    proof {
                        assert(view_errors(errors) =~= before.push(e@));
                    }
                },
            }
            k += 1;
        }
        match scanner.seek(i) {
            Ok(()) => {},
            Err(e) => {
                return Err(e);
            },
        }
        let ghost all = view_errors(errors);
        let e = ParserError {
            location: i,
            details: ParserErrorDetails::BranchingError(
                String::from_str(ALL_PARSERS_FAILED),
                errors,
            ),
        };
        proof {
            assert(e@.details->BranchingError_1 =~= all);
        }
        Err(e)
    }
}

/// Tries each of `parsers` in order, from the same position.
pub fn one_of<'a, P: Parser>(parsers: &'a [P]) -> (r: OneOfParser<'a, P>)
    ensures
        r.parsers@ == parsers@,
{
    OneOfParser { parsers }
}

/// Alternatives that all fail leave the cursor where it was.
pub proof fn lemma_one_of_failure_restores<P: Parser>(
    ps: Seq<P>,
    tokens: Seq<TokenView>,
    pos: nat,
    k: nat,
    errors: Seq<ParserErrorView>,
)
    ensures
        one_of_from(ps, tokens, pos, k, errors).result is Err ==> one_of_from(
            ps,
            tokens,
            pos,
            k,
            errors,
        ).end == pos,
    decreases ps.len() - k,
{
    if k < ps.len() {
        let attempt = ps[k as int].model(tokens, pos);
        if attempt.result is Err {
            lemma_one_of_failure_restores(ps, tokens, pos, k + 1, errors.push(attempt.result->Err_0));
        }
    }
}

/// Whatever the parsers inside them do: repetition and option never fail,
/// and the combinators that fail leave the cursor where it was, so that
/// another parser can be tried from the same position.
pub proof fn lemma_failure_restores_the_cursor<P1: Parser, P2: Parser>(
    p1: P1,
    p2: P2,
    ps: Seq<P1>,
    context: Seq<char>,
    tokens: Seq<TokenView>,
    pos: nat,
)
    ensures
        many_model(p1, tokens, pos).result is Ok,
        optional_model(p1, tokens, pos).result is Ok,
        optional_model(p1, tokens, pos).result == Ok::<
            Option<P1::OutputView>,
            ParserErrorView,
        >(None) ==> optional_model(p1, tokens, pos).end == pos,
        preceded_model(p1, p2, tokens, pos).result is Err ==> preceded_model(
            p1,
            p2,
            tokens,
            pos,
        ).end == pos,
        terminated_model(p1, p2, tokens, pos).result is Err ==> terminated_model(
            p1,
            p2,
            tokens,
            pos,
        ).end == pos,
        with_context_model(context, p1, tokens, pos).result is Err ==> with_context_model(
            context,
            p1,
            tokens,
            pos,
        ).end == pos,
        one_of_model(ps, tokens, pos).result is Err ==> one_of_model(ps, tokens, pos).end == pos,
{
    lemma_many_succeeds(p1, tokens, pos);
    lemma_one_of_failure_restores(ps, tokens, pos, 0, Seq::empty());
}

/// Backtracking between alternatives: where the first of two fails, the
/// second is tried from the position at which the first was tried, however
/// many tokens the first took before it failed. If the second succeeds, its
/// outcome is the outcome of the alternatives; if it fails too, the cursor
/// is back at that position and the error holds both errors.
pub proof fn lemma_one_of_backtracks<P: Parser>(p1: P, p2: P, tokens: Seq<TokenView>, pos: nat)
    requires
        p1.model(tokens, pos).result is Err,
    ensures
        p2.model(tokens, pos).result is Ok ==> one_of_model(seq![p1, p2], tokens, pos) == p2.model(
            tokens,
            pos,
        ),
        p2.model(tokens, pos).result is Err ==> one_of_model(seq![p1, p2], tokens, pos) == (Outcome {
            end: pos,
            result: Err::<P::OutputView, ParserErrorView>(
                branching_error(
                    pos,
                    seq![p1.model(tokens, pos).result->Err_0, p2.model(tokens, pos).result->Err_0],
                ),
            ),
        }),
{
    let ps = seq![p1, p2];
    let e1 = p1.model(tokens, pos).result->Err_0;
    assert(ps[0] == p1 && ps[1] == p2);
    assert(one_of_model(ps, tokens, pos) == one_of_from(
        ps,
        tokens,
        pos,
        1,
        Seq::<ParserErrorView>::empty().push(e1),
    ));
    reveal_with_fuel(one_of_from, 3);
    if p2.model(tokens, pos).result is Err {
        let e2 = p2.model(tokens, pos).result->Err_0;
        assert(Seq::<ParserErrorView>::empty().push(e1).push(e2) =~= seq![e1, e2]);
    }
}

/// The first alternative wins where it succeeds.
pub proof fn lemma_one_of_first_wins<P: Parser>(ps: Seq<P>, tokens: Seq<TokenView>, pos: nat)
    requires
        ps.len() > 0,
        ps[0].model(tokens, pos).result is Ok,
    ensures
        one_of_model(ps, tokens, pos) == ps[0].model(tokens, pos),
{
}

} // verus!

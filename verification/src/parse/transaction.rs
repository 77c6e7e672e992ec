//! The transaction: a header line, front matter perhaps, and indented
//! postings.

use crate::ast;
use crate::parse::basic::{
    self, AccountSeparatorToken, AmountToken, IdentifierToken, LineSeparatorToken, YamlMatterToken,
};
use crate::parse::combinators::{self, ManyParser, OptionalParser, PrecededParser, TerminatedParser};
use crate::parse::cursor::{
    self, Outcome, Parser, ParserError, ParserErrorDetails, ParserErrorDetailsView, ParserErrorView,
    ParserResult, TokenScanner,
};
use crate::tokens::TokenView;
use vstd::prelude::*;
use vstd::string::StringExecFns;

verus! {

/// The construct that the error of a failing posting names.
pub const INVALID_POSTING: &'static str = "Encountered invalid posting";

/// What stands between the names of an account.
pub const ACCOUNT_DELIMITER: &'static str = "/";

/// Front matter and the end of its line.
pub open spec fn attributes_parser() -> TerminatedParser<YamlMatterToken, LineSeparatorToken> {
    TerminatedParser { p1: YamlMatterToken, p2: LineSeparatorToken }
}

/// An account separator and the name behind it.
pub open spec fn subaccount_parser() -> PrecededParser<AccountSeparatorToken, IdentifierToken> {
    PrecededParser { p1: AccountSeparatorToken, p2: IdentifierToken }
}

/// The header: a timestamp, the end of its line and, if it follows,
/// front matter with the end of its line. Without front matter the
/// attributes are empty.
pub open spec fn header_model(tokens: Seq<TokenView>, pos: nat) -> Outcome<
    ast::TransactionHeaderView,
> {
    let timestamp = basic::timestamp_model(tokens, pos);
    let line = basic::line_separator_model(tokens, timestamp.end);
    let attributes = combinators::optional_model(
        attributes_parser(),
        tokens,
        line.end,
    );
    if timestamp.result is Err {
        Outcome { end: timestamp.end, result: Err(timestamp.result->Err_0) }
    } else if line.result is Err {
        Outcome { end: line.end, result: Err(line.result->Err_0) }
    } else {
        Outcome {
            end: attributes.end,
            result: Ok(
                ast::TransactionHeaderView {
                    timestamp: timestamp.result->Ok_0,
                    attributes: match attributes.result->Ok_0 {
                        Some(m) => crate::tokens::attributes_view(m),
                        None => None,
                    },
                },
            ),
        }
    }
}

/// The names of an account, joined with `/`.
pub open spec fn join_account(root: Seq<char>, rest: Seq<Seq<char>>) -> Seq<char>
    decreases rest.len(),
{
    if rest.len() == 0 {
        root
    } else {
        join_account(root, rest.drop_last()) + ACCOUNT_DELIMITER@ + rest.last()
    }
}

/// An account: a name, and further names behind account separators.
pub open spec fn account_model(tokens: Seq<TokenView>, pos: nat) -> Outcome<Seq<char>> {
    let root = basic::identifier_model(tokens, pos);
    let rest = combinators::many_model(subaccount_parser(), tokens, root.end);
    if root.result is Err {
        Outcome { end: root.end, result: Err(root.result->Err_0) }
    } else {
        Outcome { end: rest.end, result: Ok(join_account(root.result->Ok_0, rest.result->Ok_0)) }
    }
}

/// A posting: an account, a posting separator, a commodity perhaps, a
/// posting separator, an amount perhaps, and the end of the line.
pub open spec fn posting_model(tokens: Seq<TokenView>, pos: nat) -> Outcome<ast::PostingView> {
    let account = account_model(tokens, pos);
    let first = basic::posting_separator_model(tokens, account.end);
    let commodity = combinators::optional_model(IdentifierToken, tokens, first.end);
    let second = basic::posting_separator_model(tokens, commodity.end);
    let amount = combinators::optional_model(AmountToken, tokens, second.end);
    let line = basic::line_separator_model(tokens, amount.end);
    if account.result is Err {
        Outcome { end: account.end, result: Err(account.result->Err_0) }
    } else if first.result is Err {
        Outcome { end: first.end, result: Err(first.result->Err_0) }
    } else if second.result is Err {
        Outcome { end: second.end, result: Err(second.result->Err_0) }
    } else if line.result is Err {
        Outcome { end: line.end, result: Err(line.result->Err_0) }
    } else {
        Outcome {
            end: line.end,
            result: Ok(
                ast::PostingView {
                    account: account.result->Ok_0,
                    commodity: commodity.result->Ok_0,
                    amount: amount.result->Ok_0,
                },
            ),
        }
    }
}

/// The error of a posting that fails behind the indent at `location`.
pub open spec fn invalid_posting(location: nat, inner: ParserErrorView) -> ParserErrorView {
    ParserErrorView {
        location,
        details: ParserErrorDetailsView::Nested(INVALID_POSTING@, Box::new(inner)),
    }
}

/// Repetition keeps inside the tokens and never moves back.
pub proof fn lemma_many_bounds<P: Parser>(p: P, tokens: Seq<TokenView>, pos: nat)
    requires
        pos <= tokens.len(),
    ensures
        pos <= combinators::many_model(p, tokens, pos).end <= tokens.len(),
    decreases tokens.len() - pos,
{
    let first = p.model(tokens, pos);
    if first.result is Ok && pos < first.end <= tokens.len() {
        lemma_many_bounds(p, tokens, first.end);
    }
}

/// A posting that parses takes at least one token and keeps inside the
/// tokens.
pub proof fn lemma_posting_advances(tokens: Seq<TokenView>, pos: nat)
    requires
        pos <= tokens.len(),
        posting_model(tokens, pos).result is Ok,
    ensures
        pos < posting_model(tokens, pos).end <= tokens.len(),
{
    let account = account_model(tokens, pos);
    let root = basic::identifier_model(tokens, pos);
    lemma_many_bounds(subaccount_parser(), tokens, root.end);
}

/// The postings from `pos` on, behind those in `parsed`: each stands
/// behind exactly one indent, and the first line without an indent ends
/// them. A posting that fails is reported at the position of its indent.
pub open spec fn postings_model(
    tokens: Seq<TokenView>,
    pos: nat,
    parsed: Seq<ast::PostingView>,
) -> Outcome<Seq<ast::PostingView>>
    decreases tokens.len() - pos,
{
    let indent = basic::indent_model(tokens, pos);
    if indent.result is Err || pos >= tokens.len() {
        Outcome { end: pos, result: Ok(parsed) }
    } else {
        let posting = posting_model(tokens, indent.end);
        match posting.result {
            Err(e) => Outcome { end: posting.end, result: Err(invalid_posting(pos, e)) },
            Ok(p) => {
                proof {
                    lemma_posting_advances(tokens, indent.end);
                }
                postings_model(tokens, posting.end, parsed.push(p))
            },
        }
    }
}

/// The postings keep inside the tokens and never move back.
pub proof fn lemma_postings_bounds(
    tokens: Seq<TokenView>,
    pos: nat,
    parsed: Seq<ast::PostingView>,
)
    requires
        pos <= tokens.len(),
        postings_model(tokens, pos, parsed).result is Ok,
    ensures
        pos <= postings_model(tokens, pos, parsed).end <= tokens.len(),
    decreases tokens.len() - pos,
{
    let indent = basic::indent_model(tokens, pos);
    if !(indent.result is Err || pos >= tokens.len()) {
        let posting = posting_model(tokens, indent.end);
        if posting.result is Ok {
            lemma_posting_advances(tokens, indent.end);
            lemma_postings_bounds(tokens, posting.end, parsed.push(posting.result->Ok_0));
        }
    }
}

/// A transaction that parses takes at least one token and keeps inside
/// the tokens.
pub proof fn lemma_transaction_advances(tokens: Seq<TokenView>, pos: nat)
    requires
        pos <= tokens.len(),
        transaction_model(tokens, pos).result is Ok,
    ensures
        pos < transaction_model(tokens, pos).end <= tokens.len(),
{
    let header = header_model(tokens, pos);
    lemma_postings_bounds(tokens, header.end, Seq::empty());
}

/// A transaction: its header and its postings.
pub open spec fn transaction_model(tokens: Seq<TokenView>, pos: nat) -> Outcome<
    ast::TransactionView,
> {
    let header = header_model(tokens, pos);
    let postings = postings_model(tokens, header.end, Seq::empty());
    if header.result is Err {
        Outcome { end: header.end, result: Err(header.result->Err_0) }
    } else if postings.result is Err {
        Outcome { end: postings.end, result: Err(postings.result->Err_0) }
    } else {
        Outcome {
            end: postings.end,
            result: Ok(
                ast::TransactionView {
                    header: header.result->Ok_0,
                    postings: postings.result->Ok_0,
                },
            ),
        }
    }
}

/// The parser of transactions.
pub struct TransactionParser;

impl TransactionParser {
    /// Parses front matter and the end of its line.
    pub fn parse_transaction_attributes(scanner: &mut TokenScanner) -> (r: ParserResult<
        serde_yaml::Mapping,
    >)
        ensures
            final(scanner).tokens() == old(scanner).tokens(),
            cursor::parsed::<TerminatedParser<YamlMatterToken, LineSeparatorToken>>(
                final(scanner).tell(),
                r,
            ) == attributes_parser().model(old(scanner).tokens(), old(scanner).tell() as nat),
    {
        combinators::terminated(YamlMatterToken, LineSeparatorToken).parse(scanner)
    }

    /// Parses the header of a transaction.
    pub fn parse_header(scanner: &mut TokenScanner) -> (r: ParserResult<ast::TransactionHeader>)
        ensures
            final(scanner).tokens() == old(scanner).tokens(),
            final(scanner).tell() == header_model(
                old(scanner).tokens(),
                old(scanner).tell() as nat,
            ).end,
            match r {
                Ok(header) => header_model(old(scanner).tokens(), old(scanner).tell() as nat).result
                    == Ok::<ast::TransactionHeaderView, ParserErrorView>(header@),
                Err(e) => header_model(old(scanner).tokens(), old(scanner).tell() as nat).result
                    == Err::<ast::TransactionHeaderView, ParserErrorView>(e@),
            },
    {
        let timestamp = basic::parse_timestamp(scanner)?;
        basic::parse_line_separator(scanner)?;
        let attributes = match combinators::optional(
            combinators::terminated(YamlMatterToken, LineSeparatorToken),
        ).parse(scanner) {
            Ok(Some(m)) => m,
            Ok(None) => serde_yaml::Mapping::new(),
            Err(e) => {
                return Err(e);
            },
        };
        Ok(ast::TransactionHeader { timestamp, attributes })
    }

    /// Parses an account separator and the name behind it.
    pub fn parse_subaccount(scanner: &mut TokenScanner) -> (r: ParserResult<String>)
        ensures
            final(scanner).tokens() == old(scanner).tokens(),
            cursor::parsed::<PrecededParser<AccountSeparatorToken, IdentifierToken>>(
                final(scanner).tell(),
                r,
            ) == subaccount_parser().model(old(scanner).tokens(), old(scanner).tell() as nat),
    {
        combinators::preceded(AccountSeparatorToken, IdentifierToken).parse(scanner)
    }

    /// Parses an account.
    pub fn parse_account(scanner: &mut TokenScanner) -> (r: ParserResult<String>)
        ensures
            final(scanner).tokens() == old(scanner).tokens(),
            final(scanner).tell() == account_model(
                old(scanner).tokens(),
                old(scanner).tell() as nat,
            ).end,
            match r {
                Ok(account) => account_model(
                    old(scanner).tokens(),
                    old(scanner).tell() as nat,
                ).result == Ok::<Seq<char>, ParserErrorView>(account@),
                Err(e) => account_model(old(scanner).tokens(), old(scanner).tell() as nat).result
                    == Err::<Seq<char>, ParserErrorView>(e@),
            },
    {
        let root = basic::parse_identifier(scanner)?;
        let rest = combinators::many(
            combinators::preceded(AccountSeparatorToken, IdentifierToken),
        ).parse(scanner)?;
        let ghost names = combinators::view_outputs::<
            PrecededParser<AccountSeparatorToken, IdentifierToken>,
        >(rest);
        let mut acc = root;
        let mut i: usize = 0;
        proof {
            assert(names.take(0) =~= Seq::empty());
        }
        while i < rest.len()
            invariant
                i <= rest.len(),
                names == combinators::view_outputs::<
                    PrecededParser<AccountSeparatorToken, IdentifierToken>,
                >(rest),
                acc@ == join_account(root@, names.take(i as int)),
            decreases rest.len() - i,
        {
            proof {
                assert(names.take(i + 1).drop_last() =~= names.take(i as int));
                assert(names.take(i + 1).last() == rest@[i as int]@);
            }
            acc.append(ACCOUNT_DELIMITER);
            acc.append(rest[i].as_str());
            i += 1;
        }
        proof {
            assert(names.take(i as int) =~= names);
        }
        Ok(acc)
    }

    /// Parses a commodity.
    pub fn parse_commodity(scanner: &mut TokenScanner) -> (r: ParserResult<String>)
        ensures
            final(scanner).tokens() == old(scanner).tokens(),
            cursor::parsed::<IdentifierToken>(final(scanner).tell(), r)
                == basic::identifier_model(
                old(scanner).tokens(),
                old(scanner).tell() as nat,
            ),
    {
        basic::parse_identifier(scanner)
    }

    /// Parses a posting.
    pub fn parse_posting(scanner: &mut TokenScanner) -> (r: ParserResult<ast::Posting>)
        ensures
            final(scanner).tokens() == old(scanner).tokens(),
            final(scanner).tell() == posting_model(
                old(scanner).tokens(),
                old(scanner).tell() as nat,
            ).end,
            match r {
                Ok(posting) => posting_model(
                    old(scanner).tokens(),
                    old(scanner).tell() as nat,
                ).result == Ok::<ast::PostingView, ParserErrorView>(posting@),
                Err(e) => posting_model(old(scanner).tokens(), old(scanner).tell() as nat).result
                    == Err::<ast::PostingView, ParserErrorView>(e@),
            },
    {
        let account = Self::parse_account(scanner)?;
        basic::parse_posting_separator(scanner)?;
        let commodity = combinators::optional(IdentifierToken).parse(scanner)?;
        basic::parse_posting_separator(scanner)?;
        let amount = combinators::optional(AmountToken).parse(scanner)?;
        basic::parse_line_separator(scanner)?;
        Ok(ast::Posting { account, commodity, amount })
    }

    /// Parses a transaction.
    pub fn parse(scanner: &mut TokenScanner) -> (r: ParserResult<ast::Transaction>)
        ensures
            final(scanner).tokens() == old(scanner).tokens(),
            final(scanner).tell() == transaction_model(
                old(scanner).tokens(),
                old(scanner).tell() as nat,
            ).end,
            match r {
                Ok(transaction) => transaction_model(
                    old(scanner).tokens(),
                    old(scanner).tell() as nat,
                ).result == Ok::<ast::TransactionView, ParserErrorView>(transaction@),
                Err(e) => transaction_model(
                    old(scanner).tokens(),
                    old(scanner).tell() as nat,
                ).result == Err::<ast::TransactionView, ParserErrorView>(e@),
            },
    {
        let ghost tokens = scanner.tokens();
        let ghost start = scanner.tell() as nat;
        let header = Self::parse_header(scanner)?;
        let ghost first = scanner.tell() as nat;
        let mut postings: Vec<ast::Posting> = Vec::new();
        proof {
            assert(postings.deep_view() =~= Seq::empty());
        }
        loop
            invariant
                scanner.tokens() == tokens,
                tokens == old(scanner).tokens(),
                start == old(scanner).tell(),
                first == header_model(tokens, start).end,
                header_model(tokens, start).result == Ok::<
                    ast::TransactionHeaderView,
                    ParserErrorView,
                >(header@),
                postings_model(tokens, first, Seq::empty()) == postings_model(
                    tokens,
                    scanner.tell() as nat,
                    postings.deep_view(),
                ),
            ensures
                scanner.tokens() == tokens,
                postings_model(tokens, first, Seq::empty()) == (Outcome {
                    end: scanner.tell() as nat,
                    result: Ok::<Seq<ast::PostingView>, ParserErrorView>(postings.deep_view()),
                }),
            decreases tokens.len() - scanner.tell(),
        {
            let i = scanner.tell();
            let ghost parsed = postings.deep_view();
            match basic::parse_indent(scanner) {
                Ok(_) => {},
                Err(_) => {
                    match scanner.seek(i) {
                        Ok(()) => {},
                        Err(e) => {
                            return Err(e);
                        },
                    }
                    break ;
                },
            }
            proof {
                if posting_model(tokens, (i + 1) as nat).result is Ok {
                    lemma_posting_advances(tokens, (i + 1) as nat);
                }
            }
            let p = match Self::parse_posting(scanner) {
                Ok(p) => p,
                Err(e) => {
                    return Err(
                        ParserError {
                            location: i,
                            details: ParserErrorDetails::Nested(
                                String::from_str(INVALID_POSTING),
                                Box::new(e),
                            ),
                        },
                    );
                },
            };
            postings.push(p);
            proof {
                assert(postings.deep_view() =~= parsed.push(p@));
            }
        }
        Ok(ast::Transaction { header, postings })
    }
}

} // verus!

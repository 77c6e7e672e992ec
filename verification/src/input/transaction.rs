//! A transaction written as lines of text: the line of its timestamp and
//! the lines of its postings.

use crate::ast::{
    Posting, PostingView, Transaction, TransactionHeader, TransactionHeaderView, TransactionView,
};
use crate::input::posting::{self, PostingParser};
use crate::input::timestamp::{self, TimestampParser};
use crate::lex::scanner::{self, CompareResult, LexerResult, StringScanner};
use crate::tokens::Timestamp;
use crate::lex::basic;
use crate::input::block;
use crate::input::common;
use vstd::prelude::*;

verus! {

/// The name under which lines that are no transaction are refused.
pub const TRANSACTION: &'static str = "transaction";

/// The header line: a timestamp, and nothing but spaces up to the line
/// feed. The result is the timestamp and the length of the line.
pub open spec fn header_line_model(s: Seq<u8>) -> Option<(nat, Timestamp)> {
    match timestamp::timestamp_text_model(s) {
        Some((n, t)) => if n <= s.len() {
            match common::eol_model(s.skip(n as int)) {
                Some(e) => Some((n + e, t)),
                None => None,
            }
        } else {
            None
        },
        None => None,
    }
}

/// A posting line takes at least one byte and none beyond the text.
pub proof fn lemma_posting_line_bounds(s: Seq<u8>)
    ensures
        posting::posting_line_model(s) matches Some((n, _)) ==> 0 < n <= s.len(),
{
    if posting::posting_line_model(s) is Some {
        let first = scanner::first_occurrence(
            s.skip(2),
            posting::column_separator(),
        );
        let a = first->Some_0;
        let i = choose|i: int|
            scanner::first_at(s.skip(2), posting::column_separator(), i);
        assert(scanner::occurs_at(
            s.skip(2),
            posting::column_separator(),
            i,
        ));
        let second = 2 + a + 1;
        let next = scanner::first_occurrence(
            s.skip(second as int),
            posting::column_separator(),
        );
        let c = next->Some_0;
        let j = choose|j: int|
            scanner::first_at(
                s.skip(second as int),
                posting::column_separator(),
                j,
            );
        assert(scanner::occurs_at(
            s.skip(second as int),
            posting::column_separator(),
            j,
        ));
        let third = second + c + 1;
        let line = scanner::first_occurrence(
            s.skip(third as int),
            basic::line_end(),
        );
        if line is Some {
            let k = choose|k: int|
                scanner::first_at(
                    s.skip(third as int),
                    basic::line_end(),
                    k,
                );
            assert(scanner::occurs_at(
                s.skip(third as int),
                basic::line_end(),
                k,
            ));
        }
    }
}

/// What the lines at the start of a text add to the postings of a
/// transaction.
pub enum PostingStep {
    /// The postings end after so many bytes.
    Stop(nat),
    /// A posting, which ends after so many bytes.
    Posting(PostingView, nat),
    /// A line that should be a posting line is none.
    Fail,
}

/// One step through the posting lines. If the first line does not start
/// with two spaces, the postings end before it. Else empty lines are
/// passed over; if the text ends there, so do the postings; else a posting
/// line must follow.
pub open spec fn posting_step(here: Seq<u8>) -> PostingStep {
    let line = here.take(block::line_length(here) as int);
    let skipped = common::eols_model(here);
    if !scanner::starts_with(line, block::block_indent()) {
        PostingStep::Stop(0)
    } else if skipped >= here.len() {
        PostingStep::Stop(here.len())
    } else {
        match posting::posting_line_model(here.skip(skipped as int)) {
            Some((n, posting)) => PostingStep::Posting(posting, skipped + n),
            None => PostingStep::Fail,
        }
    }
}

/// A step never leaves the text, and a posting takes at least one byte.
pub proof fn lemma_posting_step_bounds(here: Seq<u8>)
    ensures
        posting_step(here) matches PostingStep::Stop(n) ==> n <= here.len(),
        posting_step(here) matches PostingStep::Posting(_, n) ==> 0 < n <= here.len(),
{
    common::lemma_eols_bound(here);
    let skipped = common::eols_model(here);
    if skipped < here.len() {
        lemma_posting_line_bounds(here.skip(skipped as int));
    }
}

/// The postings from `pos` on, behind those in `parsed`, and the position
/// behind them: step by step, up to the step that ends them. `None` where
/// a step fails.
pub open spec fn posting_lines_model(s: Seq<u8>, pos: nat, parsed: Seq<PostingView>) -> Option<
    (Seq<PostingView>, nat),
>
    decreases s.len() - pos,
{
    if pos >= s.len() {
        Some((parsed, pos))
    } else {
        match posting_step(s.skip(pos as int)) {
            PostingStep::Stop(n) => Some((parsed, pos + n)),
            PostingStep::Posting(posting, n) => {
                proof {
                    lemma_posting_step_bounds(s.skip(pos as int));
                }
                posting_lines_model(s, pos + n, parsed.push(posting))
            },
            PostingStep::Fail => None,
        }
    }
}

/// A transaction: its header line and its posting lines. Its attributes
/// are empty.
pub open spec fn transaction_text_model(s: Seq<u8>) -> Option<(TransactionView, nat)> {
    match header_line_model(s) {
        Some((n, timestamp)) => match posting_lines_model(s, n, Seq::empty()) {
            Some((postings, end)) => Some(
                (
                    TransactionView {
                        header: TransactionHeaderView { timestamp, attributes: None },
                        postings,
                    },
                    end,
                ),
            ),
            None => None,
        },
        None => None,
    }
}

/// Parses the header line of a transaction.
pub fn parse_transaction_header(input: StringScanner) -> (r: LexerResult<
    (StringScanner, TransactionHeader),
>)
    ensures
        match r {
            Ok((rest, header)) => header_line_model(input@) matches Some((n, timestamp))
                && header@ == (TransactionHeaderView { timestamp, attributes: None }) && n
                <= input@.len() && rest.follows(input, n),
            Err(e) => header_line_model(input@) is None && e@ == scanner::no_match(
                input.location() as nat,
                TRANSACTION@,
            ),
        },
{
    proof {
        use_type_invariant(&input);
    }
    let location = input.location();
    let (after, timestamp) = match TimestampParser::parse(input.clone()) {
        Ok(x) => x,
        Err(_) => {
            return Err(scanner::error_at(location, TRANSACTION));
        },
    };
    proof {
        after.lemma_follows(input, timestamp::timestamp_text_model(input@)->Some_0.0);
    }
    let (rest, _) = match common::eol(after) {
        Ok(x) => x,
        Err(_) => {
            return Err(scanner::error_at(location, TRANSACTION));
        },
    };
    Ok((rest, TransactionHeader { timestamp, attributes: serde_yaml::Mapping::new() }))
}

/// Passes over empty lines and parses the posting line behind them, if
/// the text goes on.
fn parse_next_posting(input: StringScanner) -> (r: LexerResult<(StringScanner, Option<Posting>)>)
    ensures
        ({
            let skipped = common::eols_model(input@);
            match r {
                Ok((rest, None)) => skipped == input@.len() && rest.follows(input, skipped),
                Ok((rest, Some(posting))) => {
                    &&& skipped < input@.len()
                    &&& posting::posting_line_model(
                        input@.skip(skipped as int),
                    ) matches Some((n, expected))
                    &&& posting@ == expected
                    &&& skipped + n <= input@.len()
                    &&& rest.follows(input, skipped + n)
                },
                Err(e) => skipped < input@.len() && posting::posting_line_model(
                    input@.skip(skipped as int),
                ) is None,
            }
        }),
{
    proof {
        use_type_invariant(&input);
    }
    let ghost skipped = common::eols_model(input@);
    let after = match common::parse_eols(input.clone()) {
        Ok((after, _)) => after,
        Err(e) => {
            return Err(e);
        },
    };
    proof {
        after.lemma_follows(input, skipped);
        lemma_posting_line_bounds(input@.skip(skipped as int));
    }
    if after.is_empty() {
        return Ok((after, None));
    }
    match PostingParser::parse_at(after) {
        Ok((rest, posting)) => Ok((rest, Some(posting))),
        Err(e) => Err(e),
    }
}

/// Takes one step through the posting lines. The result is what is left
/// behind the step, and its posting if it has one; `None` where the step
/// fails.
fn step(input: StringScanner) -> (r: Option<(StringScanner, Option<Posting>)>)
    ensures
        match r {
            Some((rest, None)) => posting_step(input@) matches PostingStep::Stop(n) && n
                <= input@.len() && rest.follows(input, n),
            Some((rest, Some(posting))) => posting_step(input@) matches PostingStep::Posting(
                expected,
                n,
            ) && posting@ == expected && 0 < n <= input@.len() && rest.follows(input, n),
            None => posting_step(input@) is Fail,
        },
{
    proof {
        use_type_invariant(&input);
    }
    proof {
        lemma_posting_step_bounds(input@);
        block::lemma_line_bounds(input@);
    }
    let next_line = match block::parse_line(input.clone()) {
        Ok((_, line)) => line,
        Err(_) => {
            return None;
        },
    };
    proof {
        block::lemma_block_indent();
    }
    match next_line.compare(block::BLOCK_INDENT) {
        CompareResult::Match => {},
        _ => {
            return Some((input.take_from(0), None));
        },
    }
    match parse_next_posting(input) {
        Ok(x) => Some(x),
        Err(_) => None,
    }
}

/// The parser of transactions that are written as lines of text.
pub struct TransactionParser;

impl TransactionParser {
    /// Parses a transaction at the start of `input`. The result is what is
    /// left behind it, and the transaction.
    #[verifier::rlimit(60)]
    pub fn parse(input: StringScanner) -> (r: LexerResult<(StringScanner, Transaction)>)
        ensures
            match r {
                Ok((rest, transaction)) => transaction_text_model(input@) matches Some(
                    (expected, n),
                ) && transaction@ == expected && n <= input@.len() && rest.follows(input, n),
                Err(e) => transaction_text_model(input@) is None && e@
                    == scanner::no_match(input.location() as nat, TRANSACTION@),
            },
    {
        proof {
            use_type_invariant(&input);
        }
        let ghost s = input@;
        let location = input.location();
        let (after_header, header) = match parse_transaction_header(input.clone()) {
            Ok(x) => x,
            Err(e) => {
                return Err(e);
            },
        };
        let ghost first = header_line_model(s)->Some_0.0;
        let ghost timestamp = header_line_model(s)->Some_0.1;
        let mut postings: Vec<Posting> = Vec::new();
        let mut i = after_header;
        proof {
            assert(postings.deep_view() =~= Seq::empty());
        }
        loop
            invariant
                input.wf(),
                s == input@,
                location == input.location(),
                i.wf(),
                i.source() == input.source(),
                i.end() == input.end(),
                input.start() <= i.start() <= input.end(),
                header_line_model(s) == Some((first, timestamp)),
                posting_lines_model(s, first, Seq::empty()) == posting_lines_model(
                    s,
                    (i.start() - input.start()) as nat,
                    postings.deep_view(),
                ),
            ensures
                i.wf(),
                i.source() == input.source(),
                i.end() == input.end(),
                input.start() <= i.start() <= input.end(),
                posting_lines_model(s, first, Seq::empty()) == Some(
                    (postings.deep_view(), (i.start() - input.start()) as nat),
                ),
            decreases input.end() - i.start(),
        {
            let ghost at = (i.start() - input.start()) as nat;
            let ghost parsed = postings.deep_view();
            proof {
                assert(i@ =~= s.skip(at as int));
            }
            let (next_i, maybe_posting) = match step(i) {
                Some(x) => x,
                None => {
                    return Err(scanner::error_at(location, TRANSACTION));
                },
            };
            i = next_i;
            match maybe_posting {
                Some(post) => {
                    postings.push(post);
                    proof {
                        assert(postings.deep_view() =~= parsed.push(post@));
                    }
                },
                None => {
                    break ;
                },
            }
        }
        proof {
            assert(i.follows(input, (i.start() - input.start()) as nat));
        }
        Ok((i, Transaction { header, postings }))
    }
}

} // verus!

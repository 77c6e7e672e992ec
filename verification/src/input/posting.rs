//! A posting written on one line of text: two spaces, the account, the
//! commodity and the amount, the columns divided by `;`.

use crate::ast::{Posting, PostingView};
use crate::lex::scanner::{self, LexerResult, StringScanner};
use crate::tokens::{Token, TokenView};
use crate::lex::basic;
use crate::lex::amount;
use crate::lex::whitespace;
use vstd::prelude::*;
use vstd::string::StringSliceAdditionalSpecFns;

verus! {

/// The name under which a line that is no posting is refused.
pub const POSTING: &'static str = "posting";

/// The text between the columns of a posting line.
pub const COLUMN_SEPARATOR: &'static str = ";";

/// The bytes between the columns of a posting line.
pub open spec fn column_separator() -> Seq<u8> {
    seq![59u8]
}

/// The text between the columns is those bytes.
pub proof fn lemma_column_separator()
    ensures
        COLUMN_SEPARATOR.spec_bytes() == column_separator(),
{
    reveal_strlit(";");
    scanner::lemma_ascii_bytes(COLUMN_SEPARATOR@);
    assert(COLUMN_SEPARATOR.spec_bytes() =~= column_separator());
}

/// What the amount column holds: nothing where it is empty, else the
/// amount that all of it spells. `None` where it spells no amount.
pub open spec fn amount_column_model(column: Seq<u8>) -> Option<Option<i64>> {
    if column.len() == 0 {
        Some(None)
    } else {
        match amount::amount_model(column) {
            Some((length, TokenView::Amount(value))) => if length == column.len() {
                Some(Some(value))
            } else {
                None
            },
            _ => None,
        }
    }
}

/// A posting line: two spaces, the account up to the first `;`, the
/// commodity up to the next `;`, and the amount up to the end of the line,
/// or of the text where no line feed follows. An empty commodity and an
/// empty amount are left open; the account and the commodity must be
/// texts. The result is the posting and the number of bytes that the line
/// takes, its line feed included.
pub open spec fn posting_line_model(s: Seq<u8>) -> Option<(nat, PostingView)> {
    if !(s.len() >= 2 && s[0] == whitespace::SPACE && s[1] == whitespace::SPACE) {
        None
    } else {
        match scanner::first_occurrence(s.skip(2), column_separator()) {
            None => None,
            Some(a) => {
                let second = 2 + a + 1;
                match scanner::first_occurrence(
                    s.skip(second as int),
                    column_separator(),
                ) {
                    None => None,
                    Some(c) => {
                        let third = second + c + 1;
                        let line = scanner::first_occurrence(
                            s.skip(third as int),
                            basic::line_end(),
                        );
                        let last = match line {
                            Some(l) => s.subrange(third as int, (third + l) as int),
                            None => s.skip(third as int),
                        };
                        let end = match line {
                            Some(l) => third + l + 1,
                            None => s.len(),
                        };
                        let account = s.subrange(2, (2 + a) as int);
                        let commodity = s.subrange(second as int, (second + c) as int);
                        match amount_column_model(last) {
                            None => None,
                            Some(amount) => if scanner::is_text(account) && scanner::is_text(
                                commodity,
                            ) {
                                Some(
                                    (
                                        end,
                                        PostingView {
                                            account: scanner::text_of(account),
                                            commodity: if commodity.len() == 0 {
                                                None
                                            } else {
                                                Some(scanner::text_of(commodity))
                                            },
                                            amount,
                                        },
                                    ),
                                )
                            } else {
                                None
                            },
                        }
                    },
                }
            },
        }
    }
}

/// The parser of posting lines.
pub struct PostingParser;

impl PostingParser {
    /// Reads a column up to its `;`, which is consumed with it.
    fn parse_column(input: &StringScanner) -> (r: Option<(StringScanner, StringScanner)>)
        ensures
            match r {
                Some((rest, column)) => scanner::first_occurrence(
                    input@,
                    column_separator(),
                ) matches Some(n) && n + 1 <= input@.len() && column@ == input@.take(n as int)
                    && rest.follows(*input, n + 1),
                None => scanner::first_occurrence(input@, column_separator()) is None,
            },
    {
        proof {
            use_type_invariant(input);
        }
        proof {
            lemma_column_separator();
        }
        match input.find_substring(COLUMN_SEPARATOR) {
            Some(n) => Some((input.take_from(n + 1), input.take(n))),
            None => None,
        }
    }

    /// Reads the last column: up to the line feed, which is consumed with
    /// it, or up to the end of the text.
    fn parse_last_column(input: &StringScanner) -> (r: (StringScanner, StringScanner))
        ensures
            r.0.wf(),
            r.1.wf(),
            match scanner::first_occurrence(input@, basic::line_end()) {
                Some(n) => n + 1 <= input@.len() && r.1@ == input@.take(n as int) && r.0.follows(
                    *input,
                    n + 1,
                ),
                None => r.1@ == input@ && r.0.follows(*input, input@.len()),
            },
            scanner::is_text(input@) ==> scanner::is_text(r.0@),
    {
        proof {
            use_type_invariant(input);
        }
        proof {
            basic::lemma_patterns();
        }
        match input.find_substring(basic::LINE_END) {
            Some(n) => {
                proof {
                    assert(input@.subrange(n as int, n + 1)[0] == input@[n as int]);
                    if scanner::is_text(input@) {
                        scanner::lemma_cut_text(input@, n + 1);
                    }
                }
                (input.take_from(n + 1), input.take(n))
            },
            None => {
                let n = input.input_len();
                proof {
                    assert(input@.take(n as int) =~= input@);
                    if scanner::is_text(input@) {
                        scanner::lemma_cut_text(input@, n as int);
                    }
                }
                (input.take_from(n), input.take(n))
            },
        }
    }

    /// A column that holds nothing is left open.
    pub fn empty_str_is_none(text: String) -> (r: Option<String>)
        ensures
            r matches Some(t) ==> t@ == text@,
            r is None <==> text@.len() == 0,
    {
        if text.as_str().is_empty() {
            None
        } else {
            Some(text)
        }
    }

    /// Reads the amount that a column spells, if it spells one.
    fn parse_amount(column: StringScanner) -> (r: Option<Option<i64>>)
        ensures
            r == amount_column_model(column@),
    {
        proof {
            use_type_invariant(&column);
        }
        if column.is_empty() {
            return Some(None);
        }
        let n = column.input_len();
        match amount::lex(column) {
            Ok((rest, Token::Amount(value))) => {
                proof {
                    rest.lemma_follows(column, amount::amount_model(column@)->Some_0.0);
                }
                if rest.is_empty() {
                    Some(Some(value))
                } else {
                    None
                }
            },
            _ => None,
        }
    }

    /// Parses a posting line at the start of `input`. The result is what
    /// is left behind the line, and the posting.
    pub fn parse_at(input: StringScanner) -> (r: LexerResult<(StringScanner, Posting)>)
        ensures
            match r {
                Ok((rest, posting)) => posting_line_model(input@) matches Some((n, expected))
                    && posting@ == expected && n <= input@.len() && rest.follows(input, n),
                Err(e) => posting_line_model(input@) is None && e@ == scanner::no_match(
                    input.location() as nat,
                    POSTING@,
                ),
            },
            scanner::is_text(input@) ==> (r matches Ok((rest, _)) ==> scanner::is_text(rest@)),
    {
        proof {
            use_type_invariant(&input);
        }
        let scanner = input;
        let location = scanner.location();
        let ghost s = scanner@;
        let indented = match (scanner.byte_at(0), scanner.byte_at(1)) {
            (Some(a), Some(b)) => a == whitespace::SPACE && b == whitespace::SPACE,
            _ => false,
        };
        if !indented {
            return Err(scanner::error_at(location, POSTING));
        }
        let after_indent = scanner.take_from(2);
        let (after_account, account) = match Self::parse_column(&after_indent) {
            Some(x) => x,
            None => {
                return Err(scanner::error_at(location, POSTING));
            },
        };
        let ghost a = scanner::first_occurrence(s.skip(2), column_separator())->Some_0;
        let ghost second = 2 + a + 1;
        proof {
            after_account.lemma_follows(after_indent, a + 1);
            assert(after_account@ =~= s.skip(second as int));
            assert(account@ =~= s.subrange(2, (2 + a) as int));
        }
        let (after_commodity, commodity) = match Self::parse_column(&after_account) {
            Some(x) => x,
            None => {
                return Err(scanner::error_at(location, POSTING));
            },
        };
        let ghost c = scanner::first_occurrence(
            s.skip(second as int),
            column_separator(),
        )->Some_0;
        let ghost third = second + c + 1;
        proof {
            after_commodity.lemma_follows(after_account, c + 1);
            assert(after_commodity@ =~= s.skip(third as int));
            if scanner::is_text(s) {
                scanner::lemma_occurrence_bound(s.skip(second as int), column_separator());
                assert(s.skip(second as int).subrange(c as int, (c + 1) as int)[0] == s[(second + c) as int]);
                scanner::lemma_cut_text(s, third as int);
            }
            assert(commodity@ =~= s.subrange(second as int, (second + c) as int));
        }
        let (rest, last) = Self::parse_last_column(&after_commodity);
        proof {
            let line = scanner::first_occurrence(
                s.skip(third as int),
                basic::line_end(),
            );
            match line {
                Some(l) => {
                    rest.lemma_follows(after_commodity, l + 1);
                    assert(last@ =~= s.subrange(third as int, (third + l) as int));
                },
                None => {
                    rest.lemma_follows(after_commodity, after_commodity@.len());
                    assert(last@ =~= s.skip(third as int));
                },
            }
        }
        let amount = match Self::parse_amount(last) {
            Some(amount) => amount,
            None => {
                return Err(scanner::error_at(location, POSTING));
            },
        };
        let account = match account.to_text() {
            Some(text) => text,
            None => {
                return Err(scanner::error_at(location, POSTING));
            },
        };
        let ghost named = commodity@;
        let commodity = match commodity.to_text() {
            Some(text) => text,
            None => {
                return Err(scanner::error_at(location, POSTING));
            },
        };
        proof {
            scanner::lemma_text_is_empty(named);
        }
        let commodity = Self::empty_str_is_none(commodity);
        Ok((rest, Posting { account, commodity, amount }))
    }

    /// Parses a posting line at the start of the text `input`. The result
    /// is the text behind the line, and the posting.
    pub fn parse(input: &str) -> (r: LexerResult<(String, Posting)>)
        ensures
            match r {
                Ok((rest, posting)) => posting_line_model(input.spec_bytes()) matches Some(
                    (n, expected),
                ) && posting@ == expected && n <= input.spec_bytes().len() && rest@
                    == scanner::text_of(input.spec_bytes().skip(n as int)),
                Err(e) => posting_line_model(input.spec_bytes()) is None && e@
                    == scanner::no_match(0, POSTING@),
            },
    {
        let scanner = StringScanner::from(input);
        match Self::parse_at(scanner.clone()) {
            Ok((rest, posting)) => {
                proof {
                    rest.lemma_follows(scanner, posting_line_model(input.spec_bytes())->Some_0.0);
                }
                Ok((rest.as_str(), posting))
            },
            Err(e) => Err(e),
        }
    }
}

} // verus!

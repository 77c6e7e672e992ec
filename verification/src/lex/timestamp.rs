//! The recognizer of timestamps.

use crate::lex::scanner::{self, LexerResult, StringScanner};
use crate::tokens::{Timestamp, Token, TokenView};
use vstd::prelude::*;

verus! {

/// `chrono::ParseError`, the reason for which a text is no timestamp. The
/// lexer only needs to know that there is one.
#[verifier::external_type_specification]
#[verifier::external_body]
pub struct ExParseError(chrono::ParseError);

/// The name under which a text that is no timestamp is refused.
pub const TIMESTAMP: &'static str = "timestamp";

/// The instant and offset that a text spells in the form
/// `YYYY-MM-DD HH:MM:SS.mmm±HH:MM`, as `chrono` reads it; `None` where the
/// text has not that form.
pub uninterp spec fn datetime_of(text: Seq<char>) -> Option<Timestamp>;

/// The day that a text spells in the form `YYYY-MM-DD`, as `chrono` reads
/// it, counted in days from 0001-01-01 as day 1; `None` where the text has
/// not that form.
pub uninterp spec fn date_of(text: Seq<char>) -> Option<i32>;

/// `DateTime::parse_from_str` with the format of a full timestamp. The
/// result is handed on as seconds since the epoch, nanoseconds and offset.
#[verifier::external_body]
fn parse_datetime(text: &str) -> (r: Result<Timestamp, chrono::ParseError>)
    ensures
        match r {
            Ok(t) => datetime_of(text@) == Some(t),
            Err(_) => datetime_of(text@) is None,
        },
{
    match chrono::DateTime::parse_from_str(text, "%Y-%m-%d %H:%M:%S%.3f%:z") {
        Ok(t) => Ok(
            Timestamp {
                seconds: t.timestamp(),
                nanoseconds: t.timestamp_subsec_nanos(),
                offset_seconds: t.offset().local_minus_utc(),
            },
        ),
        Err(e) => Err(e),
    }
}

/// `NaiveDate::parse_from_str` with the format of a bare date. The result
/// is handed on as its number of days from 0001-01-01.
#[verifier::external_body]
fn parse_date(text: &str) -> (r: Result<i32, chrono::ParseError>)
    ensures
        match r {
            Ok(days) => date_of(text@) == Some(days),
            Err(_) => date_of(text@) is None,
        },
{
    match chrono::NaiveDate::parse_from_str(text, "%Y-%m-%d") {
        Ok(date) => Ok(chrono::Datelike::num_days_from_ce(&date)),
        Err(e) => Err(e),
    }
}

/// Midnight at zero UTC offset on the day that lies `days` days from
/// 0001-01-01, counted as day 1. The first day of 1970 is day 719163.
pub open spec fn midnight_utc(days: i32) -> Timestamp {
    Timestamp { seconds: ((days - 719_163) * 86_400) as i64, nanoseconds: 0, offset_seconds: 0 }
}

/// The full timestamp that the first 29 bytes spell, if there are as many
/// and they are a text.
pub open spec fn leading_datetime(s: Seq<u8>) -> Option<Timestamp> {
    if s.len() >= 29 && scanner::is_text(s.take(29)) {
        datetime_of(scanner::text_of(s.take(29)))
    } else {
        None
    }
}

/// The date that the first 10 bytes spell, if there are as many and they
/// are a text.
pub open spec fn leading_date(s: Seq<u8>) -> Option<i32> {
    if s.len() >= 10 && scanner::is_text(s.take(10)) {
        date_of(scanner::text_of(s.take(10)))
    } else {
        None
    }
}

/// A timestamp: the first 29 bytes if they spell a full timestamp, else
/// the first 10 bytes if they spell a date, which then stands for midnight
/// at zero UTC offset. Bytes that end inside a character spell nothing.
pub open spec fn timestamp_model(s: Seq<u8>) -> scanner::Lexeme {
    match leading_datetime(s) {
        Some(t) => Some((29, TokenView::Timestamp(t))),
        None => match leading_date(s) {
            Some(days) => Some((10, TokenView::Timestamp(midnight_utc(days)))),
            None => None,
        },
    }
}

fn lex_datetime(input: &StringScanner) -> (r: Option<Timestamp>)
    ensures
        r == leading_datetime(input@),
{
    proof {
        use_type_invariant(input);
    }
    if input.input_len() < 29 {
        return None;
    }
    match input.take(29).to_text() {
        Some(text) => match parse_datetime(text.as_str()) {
            Ok(t) => Some(t),
            Err(_) => None,
        },
        None => None,
    }
}

fn lex_date(input: &StringScanner) -> (r: Option<i32>)
    ensures
        r == leading_date(input@),
{
    proof {
        use_type_invariant(input);
    }
    if input.input_len() < 10 {
        return None;
    }
    match input.take(10).to_text() {
        Some(text) => match parse_date(text.as_str()) {
            Ok(days) => Some(days),
            Err(_) => None,
        },
        None => None,
    }
}

/// Recognizes a timestamp.
pub fn lex(input: StringScanner) -> (r: LexerResult<(StringScanner, Token)>)
    ensures
        scanner::recognized(input, timestamp_model(input@), TIMESTAMP@, r),
{
    proof {
        use_type_invariant(&input);
    }
    match lex_datetime(&input) {
        Some(t) => Ok((input.take_from(29), Token::Timestamp(t))),
        None => match lex_date(&input) {
            Some(days) => {
                let seconds: i64 = (days as i64 - 719_163) * 86_400;
                let t = Timestamp { seconds, nanoseconds: 0, offset_seconds: 0 };
                Ok((input.take_from(10), Token::Timestamp(t)))
            },
            None => Err(scanner::error_at(input.location(), TIMESTAMP)),
        },
    }
}

} // verus!

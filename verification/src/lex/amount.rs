//! The recognizer of amounts: signed integers, with commas between groups
//! of digits.

use crate::lex::scanner::{self, LexerResult, StringScanner};
use crate::lex::whitespace::{self, CharClass};
use crate::tokens::{Token, TokenView};
use vstd::prelude::*;

verus! {

/// The name under which a text that is no amount is refused.
pub const AMOUNT: &'static str = "amount";

/// A plus sign.
pub const PLUS: u8 = 43;

/// A minus sign.
pub const MINUS: u8 = 45;

/// A comma.
pub const COMMA: u8 = 44;

/// The length of the groups that follow the first digits: a comma and one
/// or more digits, as often as that repeats.
pub open spec fn digit_groups(s: Seq<u8>) -> nat
    decreases s.len(),
{
    if s.len() > 0 && s[0] == COMMA {
        let digits = whitespace::span(s.skip(1), CharClass::Digit);
        if digits == 0 {
            0
        } else {
            proof {
                whitespace::lemma_span_bounds(s.skip(1), CharClass::Digit);
            }
            1 + digits + digit_groups(s.skip((1 + digits) as int))
        }
    } else {
        0
    }
}

/// The number that the digits of `s` spell in base ten; bytes that are no
/// digits are passed over.
pub open spec fn decimal_value(s: Seq<u8>) -> nat
    decreases s.len(),
{
    if s.len() == 0 {
        0
    } else if whitespace::is_digit(s.last()) {
        decimal_value(s.drop_last()) * 10 + ((s.last() - 48) as nat)
    } else {
        decimal_value(s.drop_last())
    }
}

/// An amount, after any spaces and tabs: a sign perhaps, digits, and
/// groups of digits after commas. It must fit into 64 bits.
pub open spec fn amount_model(s: Seq<u8>) -> scanner::Lexeme {
    let blanks = whitespace::span(s, CharClass::Blank);
    let signed = blanks < s.len() && (s[blanks as int] == PLUS || s[blanks as int] == MINUS);
    let negative = blanks < s.len() && s[blanks as int] == MINUS;
    let start = if signed {
        blanks + 1
    } else {
        blanks
    };
    let first = whitespace::span(s.skip(start as int), CharClass::Digit);
    let rest = digit_groups(s.skip((start + first) as int));
    let end = start + first + rest;
    let magnitude = decimal_value(s.subrange(start as int, end as int));
    let value = if negative {
        -(magnitude as int)
    } else {
        magnitude as int
    };
    if first == 0 || value < i64::MIN || value > i64::MAX {
        None
    } else {
        Some((end, TokenView::Amount(value as i64)))
    }
}

/// The groups of digits lie inside the text.
pub proof fn lemma_digit_groups_bound(s: Seq<u8>)
    ensures
        digit_groups(s) <= s.len(),
    decreases s.len(),
{
    if s.len() > 0 && s[0] == COMMA {
        let digits = whitespace::span(s.skip(1), CharClass::Digit);
        whitespace::lemma_span_bounds(s.skip(1), CharClass::Digit);
        if digits != 0 {
            lemma_digit_groups_bound(s.skip((1 + digits) as int));
        }
    }
}

/// One more digit multiplies the value by ten and adds the digit; any other
/// byte leaves the value as it is.
pub proof fn lemma_decimal_value_push(s: Seq<u8>, c: u8)
    ensures
        decimal_value(s.push(c)) == if whitespace::is_digit(c) {
            decimal_value(s) * 10 + ((c - 48) as nat)
        } else {
            decimal_value(s)
        },
{
    assert(s.push(c).drop_last() =~= s);
}

/// Counts the bytes of the digit groups that `input` holds from
/// `from` on.
fn digit_groups_from(input: &StringScanner, from: usize) -> (r: usize)
    requires
        from <= input@.len(),
    ensures
        r == digit_groups(input@.skip(from as int)),
        from + r <= input@.len(),
{
    proof {
        use_type_invariant(input);
    }
    let ghost s = input@.skip(from as int);
    let n = input.input_len();
    let mut at: usize = from;
    proof {
        assert(s.skip(0) =~= s);
    }
    loop
        invariant
            input.wf(),
            n == input@.len(),
            s == input@.skip(from as int),
            from <= at <= n,
            digit_groups(s) == (at - from) + digit_groups(s.skip(at - from)),
        ensures
            from <= at <= n,
            digit_groups(s) == at - from,
        decreases n - at,
    {
        let ghost here = s.skip(at - from);
        proof {
            assert(here =~= input@.skip(at as int));
        }
        match input.byte_at(at) {
            Some(c) => {
                if c != COMMA {
                    break ;
                }
            },
            None => {
                break ;
            },
        }
        proof {
            assert(here.skip(1) =~= input@.skip(at + 1));
        }
        let digits = whitespace::span_from(input, at + 1, CharClass::Digit);
        if digits == 0 {
            break ;
        }
        proof {
            assert(here.skip((1 + digits) as int) =~= s.skip(at + 1 + digits - from));
        }
        at = at + 1 + digits;
    }
    at - from
}

/// Reads the digits of `input` between `start` and `end` as a number in
/// base ten; `None` where the number is greater than 2^63.
fn magnitude_between(input: &StringScanner, start: usize, end: usize) -> (r: Option<u64>)
    requires
        start <= end <= input@.len(),
    ensures
        match r {
            Some(v) => v == decimal_value(input@.subrange(start as int, end as int)) && v
                <= 0x8000_0000_0000_0000,
            None => decimal_value(input@.subrange(start as int, end as int))
                > 0x8000_0000_0000_0000,
        },
{
    proof {
        use_type_invariant(input);
    }
    let ghost text = input@.subrange(start as int, end as int);
    let mut value: u64 = 0;
    let mut i: usize = start;
    proof {
        assert(text.take(0) =~= Seq::<u8>::empty());
    }
    while i < end
        invariant
            input.wf(),
            start <= i <= end <= input@.len(),
            text == input@.subrange(start as int, end as int),
            value == decimal_value(text.take(i - start)),
            value <= 0x8000_0000_0000_0000,
        decreases end - i,
    {
        let c = match input.byte_at(i) {
            Some(c) => c,
            None => whitespace::SPACE,
        };
        proof {
            assert(text.take(i + 1 - start) =~= text.take(i - start).push(c));
            lemma_decimal_value_push(text.take(i - start), c);
        }
        if 48 <= c && c <= 57 {
            let digit = (c - 48) as u64;
            if value > 922_337_203_685_477_580 || value * 10 + digit > 0x8000_0000_0000_0000 {
                proof {
                    lemma_decimal_value_grows(text, (i + 1 - start) as nat);
                }
                return None;
            }
            value = value * 10 + digit;
        }
        i += 1;
    }
    proof {
        assert(text.take(end - start) =~= text);
    }
    Some(value)
}

/// The value of a text is at least the value of each of its beginnings.
pub proof fn lemma_decimal_value_grows(s: Seq<u8>, k: nat)
    requires
        k <= s.len(),
    ensures
        decimal_value(s.take(k as int)) <= decimal_value(s),
    decreases s.len() - k,
{
    if k < s.len() {
        lemma_decimal_value_grows(s, k + 1);
        assert(s.take(k as int + 1) =~= s.take(k as int).push(s[k as int]));
        lemma_decimal_value_push(s.take(k as int), s[k as int]);
    } else {
        assert(s.take(k as int) =~= s);
    }
}

/// Recognizes an amount.
pub fn lex(input: StringScanner) -> (r: LexerResult<(StringScanner, Token)>)
    ensures
        scanner::recognized(input, amount_model(input@), AMOUNT@, r),
{
    proof {
        use_type_invariant(&input);
    }
    proof {
        assert(input@.skip(0) =~= input@);
    }
    let blanks = whitespace::span_from(&input, 0, CharClass::Blank);
    let sign = input.byte_at(blanks);
    let negative = match sign {
        Some(c) => c == MINUS,
        None => false,
    };
    let signed = match sign {
        Some(c) => c == PLUS || c == MINUS,
        None => false,
    };
    let start = if signed {
        blanks + 1
    } else {
        blanks
    };
    let first = whitespace::span_from(&input, start, CharClass::Digit);
    if first == 0 {
        return Err(scanner::error_at(input.location(), AMOUNT));
    }
    let rest = digit_groups_from(&input, start + first);
    let end = start + first + rest;
    let value: i64 = match magnitude_between(&input, start, end) {
        Some(magnitude) => {
            if negative {
                if magnitude == 0x8000_0000_0000_0000 {
                    i64::MIN
                } else {
                    -(magnitude as i64)
                }
            } else {
                if magnitude == 0x8000_0000_0000_0000 {
                    return Err(scanner::error_at(input.location(), AMOUNT));
                }
                magnitude as i64
            }
        },
        None => {
            return Err(scanner::error_at(input.location(), AMOUNT));
        },
    };
    Ok((input.take_from(end), Token::Amount(value)))
}

} // verus!

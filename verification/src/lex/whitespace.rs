//! Runs of bytes of one class, and the blank space between lines.

use crate::lex::scanner::{self, LexerResult, StringScanner};
use vstd::prelude::*;

verus! {

/// A space.
pub const SPACE: u8 = 32;

/// A tab.
pub const TAB: u8 = 9;

/// A line feed.
pub const LINE_FEED: u8 = 10;

/// A carriage return.
pub const CARRIAGE_RETURN: u8 = 13;

/// An underscore.
pub const UNDERSCORE: u8 = 95;

/// The classes of bytes that the lexer tells apart. Each holds ASCII
/// characters only, so no byte of a longer character belongs to any.
#[derive(Clone, Copy, Debug, PartialEq, Eq, Structural)]
pub enum CharClass {
    /// A space.
    Space,
    /// A space or a tab.
    Blank,
    /// A line feed or a carriage return.
    LineEnd,
    /// An ASCII letter or an underscore.
    Letter,
    /// An ASCII letter, an underscore or an ASCII digit.
    LetterOrDigit,
    /// An ASCII digit.
    Digit,
}

/// An ASCII letter or an underscore.
pub open spec fn is_letter(c: u8) -> bool {
    (97 <= c && c <= 122) || (65 <= c && c <= 90) || c == UNDERSCORE
}

/// An ASCII digit.
pub open spec fn is_digit(c: u8) -> bool {
    48 <= c && c <= 57
}

impl CharClass {
    /// Whether `c` belongs to the class.
    pub open spec fn spec_contains(self, c: u8) -> bool {
        match self {
            CharClass::Space => c == SPACE,
            CharClass::Blank => c == SPACE || c == TAB,
            CharClass::LineEnd => c == LINE_FEED || c == CARRIAGE_RETURN,
            CharClass::Letter => is_letter(c),
            CharClass::LetterOrDigit => is_letter(c) || is_digit(c),
            CharClass::Digit => is_digit(c),
        }
    }

    /// Whether `c` belongs to the class.
    #[verifier::when_used_as_spec(spec_contains)]
    pub fn contains(self, c: u8) -> (r: bool)
        ensures
            r == self.spec_contains(c),
    {
        let letter = (97 <= c && c <= 122) || (65 <= c && c <= 90) || c == UNDERSCORE;
        let digit = 48 <= c && c <= 57;
        match self {
            CharClass::Space => c == SPACE,
            CharClass::Blank => c == SPACE || c == TAB,
            CharClass::LineEnd => c == LINE_FEED || c == CARRIAGE_RETURN,
            CharClass::Letter => letter,
            CharClass::LetterOrDigit => letter || digit,
            CharClass::Digit => digit,
        }
    }
}

/// How many bytes at the start of `s` belong to `class`.
pub open spec fn span(s: Seq<u8>, class: CharClass) -> nat
    decreases s.len(),
{
    if s.len() > 0 && class.contains(s[0]) {
        1 + span(s.drop_first(), class)
    } else {
        0
    }
}

/// A run is as long as its first bytes of the class, plus the run that
/// follows them.
pub proof fn lemma_span_split(s: Seq<u8>, class: CharClass, k: nat)
    requires
        k <= s.len(),
        forall|i: int| 0 <= i < k ==> class.contains(#[trigger] s[i]),
    ensures
        span(s, class) == k + span(s.skip(k as int), class),
    decreases k,
{
    if k == 0 {
        assert(s.skip(0) =~= s);
    } else {
        let t = s.drop_first();
        assert forall|i: int| 0 <= i < k - 1 implies class.contains(#[trigger] t[i]) by {
            assert(t[i] == s[i + 1]);
        }
        lemma_span_split(t, class, (k - 1) as nat);
        assert(t.skip(k - 1) =~= s.skip(k as int));
    }
}

/// A run stays inside the text, holds only bytes of the class, and
/// stops at the end of the text or before a byte outside the class.
pub proof fn lemma_span_bounds(s: Seq<u8>, class: CharClass)
    ensures
        span(s, class) <= s.len(),
        forall|i: int| 0 <= i < span(s, class) ==> class.contains(#[trigger] s[i]),
        span(s, class) < s.len() ==> !class.contains(s[span(s, class) as int]),
    decreases s.len(),
{
    if s.len() > 0 && class.contains(s[0]) {
        let t = s.drop_first();
        lemma_span_bounds(t, class);
        assert forall|i: int| 0 <= i < span(s, class) implies class.contains(#[trigger] s[i]) by {
            if i > 0 {
                assert(s[i] == t[i - 1]);
            }
        }
        if span(s, class) < s.len() {
            assert(s[span(s, class) as int] == t[span(t, class) as int]);
        }
    }
}

/// The length of the blank lines at the start of `s`: spaces and tabs, then
/// line ends, as often as that repeats.
pub open spec fn blank_lines(s: Seq<u8>) -> nat
    decreases s.len(),
{
    let blanks = span(s, CharClass::Blank);
    let ends = span(s.skip(blanks as int), CharClass::LineEnd);
    if ends == 0 {
        0
    } else {
        proof {
            lemma_span_bounds(s, CharClass::Blank);
            lemma_span_bounds(s.skip(blanks as int), CharClass::LineEnd);
        }
        blanks + ends + blank_lines(s.skip((blanks + ends) as int))
    }
}

/// The blank lines at the start of a text lie inside it.
pub proof fn lemma_blank_lines_bound(s: Seq<u8>)
    ensures
        blank_lines(s) <= s.len(),
    decreases s.len(),
{
    let blanks = span(s, CharClass::Blank);
    let ends = span(s.skip(blanks as int), CharClass::LineEnd);
    lemma_span_bounds(s, CharClass::Blank);
    lemma_span_bounds(s.skip(blanks as int), CharClass::LineEnd);
    if ends != 0 {
        lemma_blank_lines_bound(s.skip((blanks + ends) as int));
    }
}

/// Counts the bytes of `class` that `input` holds from `from` on.
pub(crate) fn span_from(input: &StringScanner, from: usize, class: CharClass) -> (r: usize)
    requires
        from <= input@.len(),
    ensures
        r == span(input@.skip(from as int), class),
        from + r <= input@.len(),
{
    proof {
        use_type_invariant(input);
    }
    let ghost s = input@.skip(from as int);
    let n = input.input_len();
    let mut k: usize = 0;
    loop
        invariant
            input.wf(),
            n == input@.len(),
            s == input@.skip(from as int),
            from + k <= n,
            forall|i: int| 0 <= i < k ==> class.contains(#[trigger] s[i]),
        ensures
            from + k <= n,
            k == span(s, class),
        decreases n - from - k,
    {
        match input.byte_at(from + k) {
            Some(c) => {
                if class.contains(c) {
                    k += 1;
                } else {
                    proof {
                        lemma_span_split(s, class, k as nat);
                        assert(s.skip(k as int)[0] == c);
                    }
                    break ;
                }
            },
            None => {
                proof {
                    lemma_span_split(s, class, k as nat);
                    assert(s.skip(k as int).len() == 0);
                }
                break ;
            },
        }
    }
    k
}

/// The name under which a text that starts with no space or tab is refused.
pub const WHITESPACE: &'static str = "whitespace";

/// The name under which a text that starts with no line end is refused.
pub const NEWLINE: &'static str = "newline";

/// The name under which a text that starts with no blank line is refused.
pub const LINESPACE: &'static str = "linespace";

/// Consumes one or more consecutive spaces and tabs.
pub fn whitespace(input: StringScanner) -> (r: LexerResult<(StringScanner, ())>)
    ensures
        match r {
            Ok((rest, _)) => span(input@, CharClass::Blank) > 0 && rest.follows(
                input,
                span(input@, CharClass::Blank),
            ),
            Err(e) => span(input@, CharClass::Blank) == 0 && e@ == scanner::no_match(
                input.location() as nat,
                WHITESPACE@,
            ),
        },
{
    proof {
        use_type_invariant(&input);
    }
    proof {
        assert(input@.skip(0) =~= input@);
    }
    let n = span_from(&input, 0, CharClass::Blank);
    if n == 0 {
        return Err(scanner::error_at(input.location(), WHITESPACE));
    }
    Ok((input.take_from(n), ()))
}

/// Consumes one or more consecutive line ends.
pub fn newline(input: StringScanner) -> (r: LexerResult<(StringScanner, ())>)
    ensures
        match r {
            Ok((rest, _)) => span(input@, CharClass::LineEnd) > 0 && rest.follows(
                input,
                span(input@, CharClass::LineEnd),
            ),
            Err(e) => span(input@, CharClass::LineEnd) == 0 && e@ == scanner::no_match(
                input.location() as nat,
                NEWLINE@,
            ),
        },
{
    proof {
        use_type_invariant(&input);
    }
    proof {
        assert(input@.skip(0) =~= input@);
    }
    let n = span_from(&input, 0, CharClass::LineEnd);
    if n == 0 {
        return Err(scanner::error_at(input.location(), NEWLINE));
    }
    Ok((input.take_from(n), ()))
}

/// Counts the bytes of the blank lines that `input` holds from `from`
/// on.
pub(crate) fn blank_lines_from(input: &StringScanner, from: usize) -> (r: usize)
    requires
        from <= input@.len(),
    ensures
        r == blank_lines(input@.skip(from as int)),
        from + r <= input@.len(),
{
    proof {
        use_type_invariant(input);
    }
    let ghost s = input@.skip(from as int);
    let n = input.input_len();
    let mut at: usize = from;
    proof {
        assert(s.skip(0) =~= s);
    }
    loop
        invariant
            input.wf(),
            n == input@.len(),
            s == input@.skip(from as int),
            from <= at <= input@.len(),
            blank_lines(s) == (at - from) + blank_lines(s.skip(at - from)),
        ensures
            from <= at <= input@.len(),
            blank_lines(s) == at - from,
        decreases input@.len() - at,
    {
        let ghost here = s.skip(at - from);
        proof {
            assert(here =~= input@.skip(at as int));
        }
        let blanks = span_from(input, at, CharClass::Blank);
        proof {
            assert(here.skip(blanks as int) =~= input@.skip(at + blanks));
        }
        let ends = span_from(input, at + blanks, CharClass::LineEnd);
        if ends == 0 {
            break ;
        }
        proof {
            assert(here.skip((blanks + ends) as int) =~= s.skip(at + blanks + ends - from));
        }
        at = at + blanks + ends;
    }
    at - from
}

/// Consumes one or more consecutive empty lines.
pub fn linespace(input: StringScanner) -> (r: LexerResult<(StringScanner, ())>)
    ensures
        match r {
            Ok((rest, _)) => blank_lines(input@) > 0 && rest.follows(input, blank_lines(input@)),
            Err(e) => blank_lines(input@) == 0 && e@ == scanner::no_match(
                input.location() as nat,
                LINESPACE@,
            ),
        },
{
    proof {
        use_type_invariant(&input);
    }
    proof {
        assert(input@.skip(0) =~= input@);
    }
    let n = blank_lines_from(&input, 0);
    if n == 0 {
        return Err(scanner::error_at(input.location(), LINESPACE));
    }
    Ok((input.take_from(n), ()))
}

} // verus!

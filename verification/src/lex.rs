//! The lexer stage: from the bytes of a text to located tokens.

pub mod amount;
pub mod basic;
pub mod identifier;
pub mod scanner;
pub mod timestamp;
pub mod whitespace;

use crate::lex::scanner::{LexerError, LexerErrorDetails, LexerResult, StringScanner};
use crate::tokens::{Token, TokenView};
use vstd::prelude::*;
use vstd::string::StringSliceAdditionalSpecFns;

verus! {

/// A byte offset in the source.
pub type TokenLocation = usize;

/// A token together with the byte offset in the source at which it starts.
#[derive(Debug)]
pub struct DecoratedToken(Token, TokenLocation);

/// What contracts see of a located token.
pub struct DecoratedTokenView {
    pub token: TokenView,
    pub location: nat,
}

impl View for DecoratedToken {
    type V = DecoratedTokenView;

    closed spec fn view(&self) -> DecoratedTokenView {
        DecoratedTokenView { token: self.0@, location: self.1 as nat }
    }
}

impl DeepView for DecoratedToken {
    type V = DecoratedTokenView;

    open spec fn deep_view(&self) -> DecoratedTokenView {
        self@
    }
}

impl Clone for DecoratedToken {
    fn clone(&self) -> (r: Self)
        ensures
            r == *self,
    {
        DecoratedToken(self.0.clone(), self.1)
    }
}

impl DecoratedToken {
    /// The token `t`, found at byte offset `i`.
    pub fn new(t: Token, i: TokenLocation) -> (r: Self)
        ensures
            r@ == (DecoratedTokenView { token: t@, location: i as nat }),
    {
        Self(t, i)
    }

    /// The token.
    pub fn token(&self) -> (r: &Token)
        ensures
            r@ == self@.token,
    {
        &self.0
    }

    /// The byte offset at which the token starts.
    pub fn location(&self) -> (r: usize)
        ensures
            r == self@.location,
    {
        self.1
    }
}

/// Of two matches the longer one; the earlier one where they are equally
/// long.
pub open spec fn longer(best: scanner::Lexeme, next: scanner::Lexeme) -> scanner::Lexeme {
    match (best, next) {
        (_, None) => best,
        (None, Some(_)) => next,
        (Some((b, _)), Some((n, _))) => if n > b {
            next
        } else {
            best
        },
    }
}

/// The longest match among the recognizers without priority, which are,
/// in their order: keyword, identifier, timestamp, amount, account
/// separator, posting separator, line separator.
pub open spec fn longest_match(s: Seq<u8>) -> scanner::Lexeme {
    let k = basic::keyword_model(s);
    let i = longer(k, identifier::identifier_model(s));
    let t = longer(i, timestamp::timestamp_model(s));
    let a = longer(t, amount::amount_model(s));
    let c = longer(a, basic::separator_model(s, basic::SLASH, TokenView::AccountSeparator));
    let p = longer(c, basic::separator_model(s, basic::SEMICOLON, TokenView::PostingSeparator));
    longer(p, basic::line_separator_model(s))
}

/// The token at the start of `s`: front matter if there is any, else a
/// structural indent if there is one, else the longest match of the other
/// recognizers.
pub open spec fn single_token_model(s: Seq<u8>) -> scanner::Lexeme {
    if basic::yaml_matter_model(s) is Some {
        basic::yaml_matter_model(s)
    } else if basic::indent_model(s) is Some {
        basic::indent_model(s)
    } else {
        longest_match(s)
    }
}

/// The error of a position at which no recognizer matches.
pub open spec fn nothing_matched(location: nat, previous_tokens: Seq<DecoratedTokenView>)
    -> scanner::LexerErrorView {
    scanner::LexerErrorView {
        location,
        details: scanner::LexerErrorDetailsView::NothingMatched,
        previous_tokens,
    }
}

/// Every token consumes at least one byte and none beyond the text.
pub proof fn lemma_single_token_progress(s: Seq<u8>)
    ensures
        single_token_model(s) matches Some((n, _)) ==> 0 < n <= s.len(),
{
    let blanks = whitespace::span(s, whitespace::CharClass::Blank);
    whitespace::lemma_span_bounds(s, whitespace::CharClass::Blank);
    // front matter
    let body = s.skip(8);
    if scanner::starts_with(s, basic::yaml_open()) {
        if exists|i: int| scanner::first_at(body, basic::yaml_close(), i) {
            let i = choose|i: int| scanner::first_at(body, basic::yaml_close(), i);
            assert(scanner::occurs_at(body, basic::yaml_close(), i));
        }
    }
    // identifier
    let letters = whitespace::span(s.skip(blanks as int), whitespace::CharClass::Letter);
    whitespace::lemma_span_bounds(s.skip(blanks as int), whitespace::CharClass::Letter);
    whitespace::lemma_span_bounds(
        s.skip((blanks + letters) as int),
        whitespace::CharClass::LetterOrDigit,
    );
    // amount
    let signed = blanks < s.len() && (s[blanks as int] == amount::PLUS || s[blanks as int]
        == amount::MINUS);
    let start = if signed {
        blanks + 1
    } else {
        blanks
    };
    let first = whitespace::span(s.skip(start as int), whitespace::CharClass::Digit);
    whitespace::lemma_span_bounds(s.skip(start as int), whitespace::CharClass::Digit);
    if first > 0 {
        amount::lemma_digit_groups_bound(s.skip((start + first) as int));
    }
    // line separator
    let tail = s.skip(blanks as int);
    if tail.len() >= 2 && tail[0] == basic::SLASH && tail[1] == basic::SLASH {
        if exists|i: int| scanner::first_at(tail.skip(2), basic::line_end(), i) {
            let i = choose|i: int| scanner::first_at(tail.skip(2), basic::line_end(), i);
            assert(scanner::occurs_at(tail.skip(2), basic::line_end(), i));
        }
    }
}

/// Front matter and structural indents win whatever the other recognizers
/// match, however long their matches are.
pub proof fn lemma_priority_wins(s: Seq<u8>)
    ensures
        basic::yaml_matter_model(s) is Some ==> single_token_model(s) == basic::yaml_matter_model(s),
        basic::yaml_matter_model(s) is None && basic::indent_model(s) is Some
            ==> single_token_model(s) == basic::indent_model(s),
{
}

/// `chosen` is no shorter than `other`.
pub open spec fn at_least_as_long(chosen: scanner::Lexeme, other: scanner::Lexeme) -> bool {
    other matches Some((m, _)) ==> chosen matches Some((n, _)) && n >= m
}

/// Without front matter and without a structural indent, the token is a
/// match of one of the other recognizers, and no match of any of them is
/// longer: the longest match wins.
pub proof fn lemma_longest_match_wins(s: Seq<u8>)
    requires
        basic::yaml_matter_model(s) is None,
        basic::indent_model(s) is None,
    ensures
        ({
            let chosen = single_token_model(s);
            &&& at_least_as_long(chosen, basic::keyword_model(s))
            &&& at_least_as_long(chosen, identifier::identifier_model(s))
            &&& at_least_as_long(chosen, timestamp::timestamp_model(s))
            &&& at_least_as_long(chosen, amount::amount_model(s))
            &&& at_least_as_long(
                chosen,
                basic::separator_model(s, basic::SLASH, TokenView::AccountSeparator),
            )
            &&& at_least_as_long(
                chosen,
                basic::separator_model(s, basic::SEMICOLON, TokenView::PostingSeparator),
            )
            &&& at_least_as_long(chosen, basic::line_separator_model(s))
            &&& (chosen == basic::keyword_model(s) || chosen == identifier::identifier_model(s)
                || chosen == timestamp::timestamp_model(s) || chosen == amount::amount_model(s)
                || chosen == basic::separator_model(s, basic::SLASH, TokenView::AccountSeparator) || chosen
                == basic::separator_model(s, basic::SEMICOLON, TokenView::PostingSeparator) || chosen
                == basic::line_separator_model(s))
        }),
{
}

/// Where an identifier is the one longest match, the token is that
/// identifier, whatever shorter matches there are.
pub proof fn lemma_longer_identifier_wins(s: Seq<u8>)
    requires
        basic::yaml_matter_model(s) is None,
        basic::indent_model(s) is None,
        identifier::identifier_model(s) matches Some((n, _)) && {
            &&& basic::keyword_model(s) matches Some((m, _)) ==> m < n
            &&& timestamp::timestamp_model(s) matches Some((m, _)) ==> m < n
            &&& amount::amount_model(s) matches Some((m, _)) ==> m < n
            &&& basic::separator_model(s, basic::SLASH, TokenView::AccountSeparator) matches Some((m, _))
                ==> m < n
            &&& basic::separator_model(s, basic::SEMICOLON, TokenView::PostingSeparator) matches Some((m, _))
                ==> m < n
            &&& basic::line_separator_model(s) matches Some((m, _)) ==> m < n
        },
    ensures
        single_token_model(s) == identifier::identifier_model(s),
{
}

/// `held` is the match `found`, made on `input`.
pub open spec fn holds(
    input: StringScanner,
    held: Option<(StringScanner, Token)>,
    found: scanner::Lexeme,
) -> bool {
    match held {
        Some((rest, token)) => {
            &&& found matches Some((length, expected))
            &&& token@ == expected
            &&& length <= input@.len()
            &&& rest.follows(input, length)
        },
        None => found is None,
    }
}

/// Keeps the longer of two matches, and the first where both are equally
/// long. A match is the longer, the less it leaves to read.
fn keep_longer(
    input: &StringScanner,
    best: Option<(StringScanner, Token)>,
    candidate: LexerResult<(StringScanner, Token)>,
    Ghost(best_found): Ghost<scanner::Lexeme>,
    Ghost(candidate_found): Ghost<scanner::Lexeme>,
    Ghost(name): Ghost<Seq<char>>,
) -> (r: Option<(StringScanner, Token)>)
    requires
        holds(*input, best, best_found),
        scanner::recognized(*input, candidate_found, name, candidate),
    ensures
        holds(*input, r, longer(best_found, candidate_found)),
{
    proof {
        use_type_invariant(input);
    }
    match candidate {
        Err(_) => best,
        Ok((rest, token)) => match best {
            None => Some((rest, token)),
            Some((best_rest, best_token)) => {
                proof {
                    rest.lemma_follows(*input, candidate_found->Some_0.0);
                    best_rest.lemma_follows(*input, best_found->Some_0.0);
                }
                if rest.input_len() < best_rest.input_len() {
                    Some((rest, token))
                } else {
                    Some((best_rest, best_token))
                }
            },
        },
    }
}

/// Lexes the one token that stands at the start of `input`.
pub fn lex_single_token(input: StringScanner) -> (r: LexerResult<(StringScanner, Token)>)
    ensures
        match r {
            Ok((rest, token)) => {
                &&& single_token_model(input@) matches Some((length, expected))
                &&& token@ == expected
                &&& 0 < length <= input@.len()
                &&& rest.follows(input, length)
            },
            Err(e) => single_token_model(input@) is None && e@ == nothing_matched(
                input.location() as nat,
                Seq::empty(),
            ),
        },
{
    proof {
        use_type_invariant(&input);
    }
    proof {
        lemma_single_token_progress(input@);
    }
    // First the recognizers that win whatever the others match.
    match basic::lex_yaml_matter(input.clone()) {
        Ok(x) => {
            return Ok(x);
        },
        Err(_) => {},
    }
    match basic::lex_indent(input.clone()) {
        Ok(x) => {
            return Ok(x);
        },
        Err(_) => {},
    }
    // If none of them matches, the longest match of the others is taken.
    let ghost s = input@;
    let ghost k = basic::keyword_model(s);
    let ghost i = longer(k, identifier::identifier_model(s));
    let ghost t = longer(i, timestamp::timestamp_model(s));
    let ghost a = longer(t, amount::amount_model(s));
    let ghost c = longer(a, basic::separator_model(s, basic::SLASH, TokenView::AccountSeparator));
    let ghost p = longer(c, basic::separator_model(s, basic::SEMICOLON, TokenView::PostingSeparator));
    let best = keep_longer(
        &input,
        None,
        basic::lex_keyword(input.clone()),
        Ghost(None),
        Ghost(basic::keyword_model(s)),
        Ghost(basic::KEYWORD@),
    );
    let best = keep_longer(
        &input,
        best,
        identifier::lex(input.clone()),
        Ghost(k),
        Ghost(identifier::identifier_model(s)),
        Ghost(identifier::IDENTIFIER@),
    );
    let best = keep_longer(
        &input,
        best,
        timestamp::lex(input.clone()),
        Ghost(i),
        Ghost(timestamp::timestamp_model(s)),
        Ghost(timestamp::TIMESTAMP@),
    );
    let best = keep_longer(
        &input,
        best,
        amount::lex(input.clone()),
        Ghost(t),
        Ghost(amount::amount_model(s)),
        Ghost(amount::AMOUNT@),
    );
    let best = keep_longer(
        &input,
        best,
        basic::lex_account_separator(input.clone()),
        Ghost(a),
        Ghost(basic::separator_model(s, basic::SLASH, TokenView::AccountSeparator)),
        Ghost(basic::ACCOUNT_SEPARATOR@),
    );
    let best = keep_longer(
        &input,
        best,
        basic::lex_posting_separator(input.clone()),
        Ghost(c),
        Ghost(basic::separator_model(s, basic::SEMICOLON, TokenView::PostingSeparator)),
        Ghost(basic::POSTING_SEPARATOR@),
    );
    let best = keep_longer(
        &input,
        best,
        basic::lex_line_separator(input.clone()),
        Ghost(p),
        Ghost(basic::line_separator_model(s)),
        Ghost(basic::LINE_SEPARATOR@),
    );
    match best {
        Some(result) => Ok(result),
        None => {
            let e = LexerError {
                location: input.location(),
                details: LexerErrorDetails::NothingMatched,
                previous_tokens: Vec::new(),
            };
            proof {
                assert(e@.previous_tokens =~= Seq::empty());
            }
            Err(e)
        },
    }
}

/// One step of folding: what the folded tokens `acc` become when `t`
/// follows them.
///
/// A line separator after a line separator is dropped. A line separator
/// after an indent replaces the indent, and the line separator before the
/// indent if there is one: a line that holds only an indent is blank. An
/// indent that does not follow a line separator is dropped. Every other
/// token is kept.
pub open spec fn fold_step(acc: Seq<DecoratedTokenView>, t: DecoratedTokenView) -> Seq<
    DecoratedTokenView,
> {
    if acc.len() == 0 {
        seq![t]
    } else if acc.last().token is LineSeparator && t.token is LineSeparator {
        acc
    } else if acc.last().token is Indent && t.token is LineSeparator {
        let kept = acc.drop_last();
        if kept.len() > 0 && kept.last().token is LineSeparator {
            kept.drop_last().push(
                DecoratedTokenView {
                    token: TokenView::LineSeparator,
                    location: kept.last().location,
                },
            )
        } else {
            kept.push(
                DecoratedTokenView {
                    token: TokenView::LineSeparator,
                    location: acc.last().location,
                },
            )
        }
    } else if !(acc.last().token is LineSeparator) && t.token is Indent {
        acc
    } else {
        acc.push(t)
    }
}

/// The folded form of a sequence of tokens: `fold_step` from left to right.
pub open spec fn fold_model(ts: Seq<DecoratedTokenView>) -> Seq<DecoratedTokenView>
    decreases ts.len(),
{
    if ts.len() == 0 {
        Seq::empty()
    } else {
        fold_step(fold_model(ts.drop_last()), ts.last())
    }
}

/// Folds one more token into the tokens folded so far.
pub fn fold_tokens(a: Vec<DecoratedToken>, t: DecoratedToken) -> (r: Vec<DecoratedToken>)
    ensures
        r.deep_view() == fold_step(a.deep_view(), t@),
{
    let mut a = a;
    let ghost acc = a.deep_view();
    if a.len() == 0 {
        a.push(t);
        proof {
            assert(a.deep_view() =~= seq![t@]);
        }
        return a;
    }
    let last_is_line_separator = match a[a.len() - 1].token() {
        Token::LineSeparator => true,
        _ => false,
    };
    let last_is_indent = match a[a.len() - 1].token() {
        Token::Indent => true,
        _ => false,
    };
    let is_line_separator = match t.token() {
        Token::LineSeparator => true,
        _ => false,
    };
    let is_indent = match t.token() {
        Token::Indent => true,
        _ => false,
    };
    proof {
        assert(acc.last() == a@[a.len() - 1]@);
    }
    if last_is_line_separator && is_line_separator {
        // consecutive newlines are combined into one
        a
    } else if last_is_indent && is_line_separator {
        // indent followed by newline is considered as a single newline
        let mut i = a[a.len() - 1].location();
        a.pop();
        proof {
            assert(a.deep_view() =~= acc.drop_last());
        }
        // The second-to-last token could be a newline. In that case, we pop that as well.
        if a.len() > 0 {
            let again = match a[a.len() - 1].token() {
                Token::LineSeparator => true,
                _ => false,
            };
            proof {
                assert(acc.drop_last().last() == a@[a.len() - 1]@);
            }
            if again {
                i = a[a.len() - 1].location();
                a.pop();
                proof {
                    assert(a.deep_view() =~= acc.drop_last().drop_last());
                }
            }
        }
        // Finally we put a newline at the end.
        let ghost kept = a.deep_view();
        let separator = DecoratedToken::new(Token::LineSeparator, i);
        a.push(separator);
        proof {
            assert(a.deep_view() =~= kept.push(separator@));
        }
        a
    } else if !last_is_line_separator && is_indent {
        // Indent not following a newline is skipped
        a
    } else {
        a.push(t);
        proof {
            assert(a.deep_view() =~= acc.push(t@));
        }
        a
    }
}

/// The last three of `ts`, or all of them where they are fewer.
pub open spec fn last_three(ts: Seq<DecoratedTokenView>) -> Seq<DecoratedTokenView> {
    if ts.len() <= 3 {
        ts
    } else {
        ts.skip(ts.len() - 3)
    }
}

/// The tokens of `content` from position `pos` on, behind those `emitted`
/// so far, before folding; or the error of the first position at which
/// nothing matches. After a line separator the blank lines that follow
/// are skipped. Locations are byte offsets.
pub open spec fn lex_from(content: Seq<u8>, pos: nat, emitted: Seq<DecoratedTokenView>)
    -> Result<Seq<DecoratedTokenView>, scanner::LexerErrorView>
    decreases content.len() - pos,
{
    if pos >= content.len() {
        Ok(emitted)
    } else {
        let location = pos;
        match single_token_model(content.skip(pos as int)) {
            Some((length, token)) => {
                let after = pos + length;
                let next = if token is LineSeparator {
                    after + whitespace::blank_lines(content.skip(after as int))
                } else {
                    after
                };
                proof {
                    lemma_single_token_progress(content.skip(pos as int));
                    whitespace::lemma_blank_lines_bound(content.skip(after as int));
                }
                lex_from(content, next, emitted.push(DecoratedTokenView { token, location }))
            },
            None => Err(nothing_matched(location, last_three(emitted))),
        }
    }
}

/// The tokens of a document: blank lines at its start are skipped, the
/// tokens are folded, and an `Eof` token at the end of the text closes
/// them.
pub open spec fn lex_model(content: Seq<u8>) -> Result<
    Seq<DecoratedTokenView>,
    scanner::LexerErrorView,
> {
    match lex_from(content, whitespace::blank_lines(content), Seq::empty()) {
        Ok(raw) => Ok(
            fold_model(raw).push(
                DecoratedTokenView { token: TokenView::Eof, location: content.len() },
            ),
        ),
        Err(e) => Err(e),
    }
}

/// Copies the last three of `tokens`, or all of them where they are fewer.
fn copy_last_three(tokens: &Vec<DecoratedToken>) -> (r: Vec<DecoratedToken>)
    ensures
        r.deep_view() == last_three(tokens.deep_view()),
{
    let end = tokens.len();
    let start = if end > 3 {
        end - 3
    } else {
        0
    };
    let mut r: Vec<DecoratedToken> = Vec::new();
    let mut i = start;
    while i < end
        invariant
            start <= i <= end,
            end == tokens.len(),
            r.len() == i - start,
            forall|k: int| 0 <= k < r.len() ==> (#[trigger] r@[k])@ == tokens@[start + k]@,
        decreases end - i,
    {
        r.push(tokens[i].clone());
        i += 1;
    }
    proof {
        assert(r.deep_view() =~= last_three(tokens.deep_view()));
    }
    r
}

/// Folds a sequence of tokens from left to right.
pub fn fold_all(tokens: &Vec<DecoratedToken>) -> (r: Vec<DecoratedToken>)
    ensures
        r.deep_view() == fold_model(tokens.deep_view()),
{
    let ghost raw = tokens.deep_view();
    let mut folded: Vec<DecoratedToken> = Vec::new();
    let mut i: usize = 0;
    proof {
        assert(raw.take(0) =~= Seq::empty());
        assert(folded.deep_view() =~= Seq::empty());
    }
    while i < tokens.len()
        invariant
            i <= tokens.len(),
            raw == tokens.deep_view(),
            folded.deep_view() == fold_model(raw.take(i as int)),
        decreases tokens.len() - i,
    {
        proof {
            assert(raw.take(i + 1).drop_last() =~= raw.take(i as int));
            assert(raw.take(i + 1).last() == tokens@[i as int]@);
        }
        folded = fold_tokens(folded, tokens[i].clone());
        i += 1;
    }
    proof {
        assert(raw.take(i as int) =~= raw);
    }
    folded
}

/// Lexes everything that a scanner over a whole document has to read.
fn lex_document(input: StringScanner) -> (r: LexerResult<Vec<DecoratedToken>>)
    requires
        input.start() == 0,
        input.end() == input.source().len(),
    ensures
        match r {
            Ok(tokens) => lex_model(input.source()) == Ok::<
                Seq<DecoratedTokenView>,
                scanner::LexerErrorView,
            >(tokens.deep_view()),
            Err(e) => lex_model(input.source()) == Err::<
                Seq<DecoratedTokenView>,
                scanner::LexerErrorView,
            >(e@),
        },
{
    proof {
        use_type_invariant(&input);
    }
    let ghost content = input.source();
    let eof = input.eof_idx();
    proof {
        assert(input@ =~= content);
        assert(input@.skip(0) =~= input@);
    }
    let skipped = whitespace::blank_lines_from(&input, 0);
    let mut remaining = input.take_from(skipped);
    let mut tokens: Vec<DecoratedToken> = Vec::new();
    proof {
        assert(tokens.deep_view() =~= Seq::empty());
    }
    loop
        invariant
            content == input.source(),
            remaining.wf(),
            remaining.source() == content,
            remaining.end() == content.len(),
            lex_from(content, whitespace::blank_lines(content), Seq::empty()) == lex_from(
                content,
                remaining.start(),
                tokens.deep_view(),
            ),
        ensures
            lex_from(content, whitespace::blank_lines(content), Seq::empty()) == Ok::<
                Seq<DecoratedTokenView>,
                scanner::LexerErrorView,
            >(tokens.deep_view()),
        decreases content.len() - remaining.start(),
    {
        let ghost pos = remaining.start();
        let ghost emitted = tokens.deep_view();
        proof {
            assert(remaining@ =~= content.skip(pos as int));
        }
        if remaining.is_empty() {
            break ;
        }
        let loc = remaining.location();
        let (rest, t) = match lex_single_token(remaining) {
            Ok(x) => x,
            Err(_) => {
                let e = LexerError {
                    location: loc,
                    details: LexerErrorDetails::NothingMatched,
                    previous_tokens: copy_last_three(&tokens),
                };
                return Err(e);
            },
        };
        let ghost after = rest.start();
        proof {
            assert(rest@ =~= content.skip(after as int));
            assert(rest@.skip(0) =~= rest@);
        }
        let is_line_separator = match &t {
            Token::LineSeparator => true,
            _ => false,
        };
        remaining = if is_line_separator {
            let blank = whitespace::blank_lines_from(&rest, 0);
            rest.take_from(blank)
        } else {
            rest
        };
        let token = DecoratedToken::new(t, loc);
        tokens.push(token);
        proof {
            assert(tokens.deep_view() =~= emitted.push(token@));
        }
    }
    let mut folded = fold_all(&tokens);
    let ghost before = folded.deep_view();
    let last = DecoratedToken::new(Token::Eof, eof);
    folded.push(last);
    proof {
        assert(folded.deep_view() =~= before.push(last@));
    }
    Ok(folded)
}

/// Lexes a document into its tokens, each with the byte offset at which it
/// starts, closed by an `Eof` token.
pub fn lex_string(content: &str) -> (r: LexerResult<Vec<DecoratedToken>>)
    ensures
        match r {
            Ok(tokens) => lex_model(content.spec_bytes()) == Ok::<
                Seq<DecoratedTokenView>,
                scanner::LexerErrorView,
            >(tokens.deep_view()),
            Err(e) => lex_model(content.spec_bytes()) == Err::<
                Seq<DecoratedTokenView>,
                scanner::LexerErrorView,
            >(e@),
        },
{
    let scanner = StringScanner::from(content);
    lex_document(scanner)
}

/// The shape of folded tokens: no line separator follows a line
/// separator, every indent stands at the start or behind a line separator,
/// and no line separator follows an indent.
pub open spec fn is_folded(ts: Seq<DecoratedTokenView>) -> bool {
    forall|i: int|
        0 < i < ts.len() ==> {
            let before = (#[trigger] ts[i - 1]).token;
            let here = ts[i].token;
            &&& !(before is LineSeparator && here is LineSeparator)
            &&& (here is Indent ==> before is LineSeparator)
            &&& !(before is Indent && here is LineSeparator)
        }
}

/// A folding step keeps the shape of folded tokens.
pub proof fn lemma_fold_step_is_folded(acc: Seq<DecoratedTokenView>, t: DecoratedTokenView)
    requires
        is_folded(acc),
    ensures
        is_folded(fold_step(acc, t)),
{
    let r = fold_step(acc, t);
    assert forall|i: int| 0 < i < r.len() implies {
        let before = (#[trigger] r[i - 1]).token;
        let here = r[i].token;
        &&& !(before is LineSeparator && here is LineSeparator)
        &&& (here is Indent ==> before is LineSeparator)
        &&& !(before is Indent && here is LineSeparator)
    } by {
        if i < r.len() - 1 {
            // an inner pair is a pair of `acc`
            assert(r[i - 1] == acc[i - 1] && r[i] == acc[i]);
            let _ = acc[i - 1];
        } else if acc.len() > 0 {
            if acc.last().token is LineSeparator && t.token is LineSeparator {
                let _ = acc[i - 1];
            } else if acc.last().token is Indent && t.token is LineSeparator {
                let kept = acc.drop_last();
                // the indent at the end of `acc` stands behind a line separator
                let _ = acc[acc.len() - 2];
                assert(kept.len() > 0 && kept.last().token is LineSeparator);
                assert(r[i - 1] == acc[i - 1]);
                let _ = acc[i - 1];
                assert(acc[i].token is LineSeparator);
            } else if !(acc.last().token is LineSeparator) && t.token is Indent {
                let _ = acc[i - 1];
            } else {
                assert(r[i - 1] == acc.last());
            }
        }
    }
}

/// Folded tokens have the shape of folded tokens.
pub proof fn lemma_fold_is_folded(ts: Seq<DecoratedTokenView>)
    ensures
        is_folded(fold_model(ts)),
    decreases ts.len(),
{
    if ts.len() > 0 {
        lemma_fold_is_folded(ts.drop_last());
        lemma_fold_step_is_folded(fold_model(ts.drop_last()), ts.last());
    }
}

/// Folding leaves tokens of the folded shape as they are.
pub proof fn lemma_fold_of_folded(ts: Seq<DecoratedTokenView>)
    requires
        is_folded(ts),
    ensures
        fold_model(ts) == ts,
    decreases ts.len(),
{
    if ts.len() > 0 {
        let head = ts.drop_last();
        assert forall|i: int| 0 < i < head.len() implies {
            let before = (#[trigger] head[i - 1]).token;
            let here = head[i].token;
            &&& !(before is LineSeparator && here is LineSeparator)
            &&& (here is Indent ==> before is LineSeparator)
            &&& !(before is Indent && here is LineSeparator)
        } by {
            assert(head[i - 1] == ts[i - 1]);
        }
        lemma_fold_of_folded(head);
        assert(head.push(ts.last()) =~= ts);
        if head.len() > 0 {
            let i = ts.len() - 1;
            assert(head.last() == ts[i - 1]);
            assert(fold_step(head, ts.last()) == head.push(ts.last()));
        } else {
            assert(seq![ts.last()] =~= ts);
        }
    }
}

/// Folding is idempotent: folding folded tokens changes nothing.
pub proof fn lemma_fold_idempotent(ts: Seq<DecoratedTokenView>)
    ensures
        fold_model(fold_model(ts)) == fold_model(ts),
{
    lemma_fold_is_folded(ts);
    lemma_fold_of_folded(fold_model(ts));
}

/// A run of one or more line separators folds to exactly one, the first.
pub proof fn lemma_fold_run_of_line_separators(ts: Seq<DecoratedTokenView>)
    requires
        ts.len() >= 1,
        forall|i: int| 0 <= i < ts.len() ==> (#[trigger] ts[i]).token is LineSeparator,
    ensures
        fold_model(ts) == seq![ts[0]],
    decreases ts.len(),
{
    if ts.len() == 1 {
        assert(fold_model(ts.drop_last()) =~= Seq::empty());
        assert(seq![ts.last()] =~= seq![ts[0]]);
    } else {
        let head = ts.drop_last();
        assert forall|i: int| 0 <= i < head.len() implies (#[trigger] head[i]).token
            is LineSeparator by {
            assert(head[i] == ts[i]);
        }
        lemma_fold_run_of_line_separators(head);
        assert(head[0] == ts[0]);
    }
}

/// The empty document lexes to exactly one token, `Eof`, at offset 0.
pub proof fn lemma_lex_empty()
    ensures
        lex_model(Seq::empty()) == Ok::<Seq<DecoratedTokenView>, scanner::LexerErrorView>(
            seq![DecoratedTokenView { token: TokenView::Eof, location: 0 }],
        ),
{
    let content = Seq::<u8>::empty();
    assert(whitespace::blank_lines(content) == 0);
    assert(lex_from(content, 0, Seq::empty()) == Ok::<
        Seq<DecoratedTokenView>,
        scanner::LexerErrorView,
    >(Seq::empty()));
    assert(fold_model(Seq::empty()) =~= Seq::empty());
    assert(Seq::<DecoratedTokenView>::empty().push(
        DecoratedTokenView { token: TokenView::Eof, location: 0 },
    ) =~= seq![DecoratedTokenView { token: TokenView::Eof, location: 0 }]);
}

} // verus!

//! The recognizers of the structural tokens.

use crate::lex::scanner::{self, CompareResult, LexerResult, StringScanner};
use crate::lex::whitespace::{self, CharClass};
use crate::tokens::{Keyword, Token, TokenView};
use vstd::prelude::*;
use vstd::string::StringSliceAdditionalSpecFns;

verus! {

/// `serde_yaml::Error`, the reason for which a text is no YAML mapping.
/// The lexer only needs to know that there is one.
#[verifier::external_type_specification]
#[verifier::external_body]
pub struct ExYamlError(serde_yaml::Error);

/// The mapping that a YAML text decodes to; `None` where the text is no
/// YAML mapping.
pub uninterp spec fn yaml_mapping(text: Seq<char>) -> Option<serde_yaml::Mapping>;

/// `serde_yaml::from_str`, asked for a mapping: decoding is a function of
/// the text alone.
#[verifier::external_body]
fn decode_mapping(text: &str) -> (r: Result<serde_yaml::Mapping, serde_yaml::Error>)
    ensures
        match r {
            Ok(m) => yaml_mapping(text@) == Some(m),
            Err(_) => yaml_mapping(text@) is None,
        },
{
    serde_yaml::from_str(text)
}

/// The name under which a text that starts with no indent is refused.
pub const INDENT: &'static str = "indent";

/// The name under which a text that starts with no `/` is refused.
pub const ACCOUNT_SEPARATOR: &'static str = "account separator";

/// The name under which a text that starts with no `;` is refused.
pub const POSTING_SEPARATOR: &'static str = "posting separator";

/// The name under which a text that starts with no comment is refused.
pub const COMMENT: &'static str = "comment";

/// The name under which a text that starts with no end of line is refused.
pub const LINE_SEPARATOR: &'static str = "line separator";

/// The name under which a text that starts with no keyword is refused.
pub const KEYWORD: &'static str = "keyword";

/// The name under which a text that starts with no front matter is refused.
pub const YAML_MATTER: &'static str = "YAML matter";

/// The text of the keyword that opens an attribute directive.
pub const KEYWORD_SET: &'static str = "set";

/// The text that ends a line.
pub const LINE_END: &'static str = "\n";

/// The line that opens front matter, with the indent of its first line.
pub const YAML_OPEN: &'static str = "  ---\n  ";

/// The line that closes front matter.
pub const YAML_CLOSE: &'static str = "\n  ---";

/// A slash.
pub const SLASH: u8 = 47;

/// A semicolon.
pub const SEMICOLON: u8 = 59;

/// The bytes of the keyword that opens an attribute directive.
pub open spec fn keyword_set() -> Seq<u8> {
    seq![115u8, 101u8, 116u8]
}

/// The bytes that end a line.
pub open spec fn line_end() -> Seq<u8> {
    seq![10u8]
}

/// The bytes of the line that opens front matter, with the indent of its
/// first line.
pub open spec fn yaml_open() -> Seq<u8> {
    seq![32u8, 32u8, 45u8, 45u8, 45u8, 10u8, 32u8, 32u8]
}

/// The bytes of the line that closes front matter.
pub open spec fn yaml_close() -> Seq<u8> {
    seq![10u8, 32u8, 32u8, 45u8, 45u8, 45u8]
}

/// The texts that the recognizers look for are those bytes.
pub proof fn lemma_patterns()
    ensures
        KEYWORD_SET.spec_bytes() == keyword_set(),
        LINE_END.spec_bytes() == line_end(),
        YAML_OPEN.spec_bytes() == yaml_open(),
        YAML_CLOSE.spec_bytes() == yaml_close(),
{
    reveal_strlit("set");
    reveal_strlit("\n");
    reveal_strlit("  ---\n  ");
    reveal_strlit("\n  ---");
    scanner::lemma_ascii_bytes(KEYWORD_SET@);
    scanner::lemma_ascii_bytes(LINE_END@);
    scanner::lemma_ascii_bytes(YAML_OPEN@);
    scanner::lemma_ascii_bytes(YAML_CLOSE@);
    assert(KEYWORD_SET.spec_bytes() =~= keyword_set());
    assert(LINE_END.spec_bytes() =~= line_end());
    assert(YAML_OPEN.spec_bytes() =~= yaml_open());
    assert(YAML_CLOSE.spec_bytes() =~= yaml_close());
}

/// A structural indent: exactly two spaces before a byte that does not end
/// the line.
pub open spec fn indent_model(s: Seq<u8>) -> scanner::Lexeme {
    if s.len() >= 3 && s[0] == whitespace::SPACE && s[1] == whitespace::SPACE && s[2]
        != whitespace::LINE_FEED {
        Some((2, TokenView::Indent))
    } else {
        None
    }
}

/// A one-byte separator, after any spaces and tabs.
pub open spec fn separator_model(s: Seq<u8>, mark: u8, token: TokenView)
    -> scanner::Lexeme {
    let blanks = whitespace::span(s, CharClass::Blank);
    if blanks < s.len() && s[blanks as int] == mark {
        Some((blanks + 1, token))
    } else {
        None
    }
}

/// The length of a comment: `//` and what follows, up to the line feed that
/// ends the line. Without a line feed there is no comment.
pub open spec fn comment_model(s: Seq<u8>) -> Option<nat> {
    if s.len() >= 2 && s[0] == SLASH && s[1] == SLASH {
        match scanner::first_occurrence(s.skip(2), line_end()) {
            Some(k) => Some(2 + k),
            None => None,
        }
    } else {
        None
    }
}

/// The end of a line: spaces and tabs, a comment perhaps, and a line feed.
pub open spec fn line_separator_model(s: Seq<u8>) -> scanner::Lexeme {
    let blanks = whitespace::span(s, CharClass::Blank);
    let comment = match comment_model(s.skip(blanks as int)) {
        Some(n) => n,
        None => 0,
    };
    if blanks + comment < s.len() && s[(blanks + comment) as int] == whitespace::LINE_FEED {
        Some((blanks + comment + 1, TokenView::LineSeparator))
    } else {
        None
    }
}

/// The keyword `set`.
pub open spec fn keyword_model(s: Seq<u8>) -> scanner::Lexeme {
    if scanner::starts_with(s, keyword_set()) {
        Some((3, TokenView::Keyword(Keyword::SetAttribute)))
    } else {
        None
    }
}

/// A block of front matter without the indent of its lines: each line feed
/// that two spaces follow loses them.
pub open spec fn strip_indent(text: Seq<u8>) -> Seq<u8>
    decreases text.len(),
{
    if text.len() == 0 {
        text
    } else if text.len() >= 3 && text[0] == whitespace::LINE_FEED && text[1] == whitespace::SPACE
        && text[2] == whitespace::SPACE {
        seq![whitespace::LINE_FEED] + strip_indent(text.skip(3))
    } else {
        seq![text[0]] + strip_indent(text.skip(1))
    }
}

/// Fenced front matter: the opening line, an indented block up to the first
/// closing line, and the closing line; the block, without its indent, must
/// be a text that decodes to a mapping.
pub open spec fn yaml_matter_model(s: Seq<u8>) -> scanner::Lexeme {
    if scanner::starts_with(s, yaml_open()) {
        let body = s.skip(8);
        match scanner::first_occurrence(body, yaml_close()) {
            Some(k) => {
                let block = strip_indent(body.take(k as int));
                if scanner::is_text(block) {
                    match yaml_mapping(scanner::text_of(block)) {
                        Some(m) => Some((8 + k + 6, TokenView::YamlMatter(m))),
                        None => None,
                    }
                } else {
                    None
                }
            },
            None => None,
        }
    } else {
        None
    }
}

/// Recognizes a structural indent.
pub fn lex_indent(input: StringScanner) -> (r: LexerResult<(StringScanner, Token)>)
    ensures
        scanner::recognized(input, indent_model(input@), INDENT@, r),
{
    proof {
        use_type_invariant(&input);
    }
    let first = input.byte_at(0);
    let second = input.byte_at(1);
    let third = input.byte_at(2);
    match (first, second, third) {
        (Some(a), Some(b), Some(c)) => {
            if a == whitespace::SPACE && b == whitespace::SPACE && c != whitespace::LINE_FEED {
                return Ok((input.take_from(2), Token::Indent));
            }
        },
        _ => {},
    }
    Err(scanner::error_at(input.location(), INDENT))
}

/// Skips spaces and tabs, then expects `mark`.
fn lex_separator(input: StringScanner, mark: u8, token: Token, name: &str) -> (r: LexerResult<
    (StringScanner, Token),
>)
    ensures
        scanner::recognized(input, separator_model(input@, mark, token@), name@, r),
{
    proof {
        use_type_invariant(&input);
    }
    proof {
        assert(input@.skip(0) =~= input@);
    }
    let blanks = whitespace::span_from(&input, 0, CharClass::Blank);
    match input.byte_at(blanks) {
        Some(c) => {
            if c == mark {
                return Ok((input.take_from(blanks + 1), token));
            }
        },
        None => {},
    }
    Err(scanner::error_at(input.location(), name))
}

/// Recognizes the separator between the names of an account.
pub fn lex_account_separator(input: StringScanner) -> (r: LexerResult<(StringScanner, Token)>)
    ensures
        scanner::recognized(
            input,
            separator_model(input@, SLASH, TokenView::AccountSeparator),
            ACCOUNT_SEPARATOR@,
            r,
        ),
{
    proof {
        use_type_invariant(&input);
    }
    lex_separator(input, SLASH, Token::AccountSeparator, ACCOUNT_SEPARATOR)
}

/// Recognizes the separator between the fields of a posting.
pub fn lex_posting_separator(input: StringScanner) -> (r: LexerResult<(StringScanner, Token)>)
    ensures
        scanner::recognized(
            input,
            separator_model(input@, SEMICOLON, TokenView::PostingSeparator),
            POSTING_SEPARATOR@,
            r,
        ),
{
    proof {
        use_type_invariant(&input);
    }
    lex_separator(input, SEMICOLON, Token::PostingSeparator, POSTING_SEPARATOR)
}

/// Consumes a comment, up to the line feed that ends it.
pub fn lex_comment(input: StringScanner) -> (r: LexerResult<(StringScanner, ())>)
    ensures
        match r {
            Ok((rest, _)) => comment_model(input@) matches Some(n) && n <= input@.len()
                && rest.follows(input, n),
            Err(e) => comment_model(input@) is None && e@ == scanner::no_match(
                input.location() as nat,
                COMMENT@,
            ),
        },
{
    proof {
        use_type_invariant(&input);
        lemma_patterns();
    }
    match (input.byte_at(0), input.byte_at(1)) {
        (Some(a), Some(b)) => {
            if a == SLASH && b == SLASH {
                let after = input.take_from(2);
                match after.find_substring(LINE_END) {
                    Some(k) => {
                        return Ok((input.take_from(2 + k), ()));
                    },
                    None => {},
                }
            }
        },
        _ => {},
    }
    Err(scanner::error_at(input.location(), COMMENT))
}

/// Recognizes the end of a line, with the comment before it if there is one.
pub fn lex_line_separator(input: StringScanner) -> (r: LexerResult<(StringScanner, Token)>)
    ensures
        scanner::recognized(input, line_separator_model(input@), LINE_SEPARATOR@, r),
{
    proof {
        use_type_invariant(&input);
    }
    proof {
        assert(input@.skip(0) =~= input@);
    }
    let blanks = whitespace::span_from(&input, 0, CharClass::Blank);
    let after_blanks = input.take_from(blanks);
    let comment = match lex_comment(after_blanks.clone()) {
        Ok((rest, _)) => rest.input_len(),
        Err(_) => after_blanks.input_len(),
    };
    let comment = after_blanks.input_len() - comment;
    match input.byte_at(blanks + comment) {
        Some(c) => {
            if c == whitespace::LINE_FEED {
                return Ok((input.take_from(blanks + comment + 1), Token::LineSeparator));
            }
        },
        None => {},
    }
    Err(scanner::error_at(input.location(), LINE_SEPARATOR))
}

/// Recognizes a keyword.
pub fn lex_keyword(input: StringScanner) -> (r: LexerResult<(StringScanner, Token)>)
    ensures
        scanner::recognized(input, keyword_model(input@), KEYWORD@, r),
{
    proof {
        use_type_invariant(&input);
    }
    proof {
        lemma_patterns();
    }
    match input.compare(KEYWORD_SET) {
        CompareResult::Match => Ok((input.take_from(3), Token::Keyword(Keyword::SetAttribute))),
        _ => Err(scanner::error_at(input.location(), KEYWORD)),
    }
}

/// Removes the indent of the lines of a block of front matter.
pub fn strip_block_indent(block: &StringScanner) -> (r: Vec<u8>)
    ensures
        r@ == strip_indent(block@),
{
    proof {
        use_type_invariant(block);
    }
    let ghost text = block@;
    let n = block.input_len();
    let mut r: Vec<u8> = Vec::new();
    let mut i: usize = 0;
    proof {
        assert(text.skip(0) =~= text);
    }
    while i < n
        invariant
            block.wf(),
            text == block@,
            n == text.len(),
            i <= n,
            strip_indent(text) == r@ + strip_indent(text.skip(i as int)),
        decreases n - i,
    {
        let ghost here = text.skip(i as int);
        let ghost before = r@;
        let c = block.byte_at(i);
        let d = block.byte_at(i + 1);
        let e = if i < n - 1 {
            block.byte_at(i + 2)
        } else {
            None
        };
        let indented = match (c, d, e) {
            (Some(x), Some(y), Some(z)) => x == whitespace::LINE_FEED && y == whitespace::SPACE && z
                == whitespace::SPACE,
            _ => false,
        };
        if indented {
            r.push(whitespace::LINE_FEED);
            proof {
                assert(here.skip(3) =~= text.skip(i + 3));
                assert(before + (seq![whitespace::LINE_FEED] + strip_indent(here.skip(3)))
                    =~= before.push(whitespace::LINE_FEED) + strip_indent(here.skip(3)));
            }
            i += 3;
        } else {
            r.push(byte_read(c));
            proof {
                assert(here.skip(1) =~= text.skip(i + 1));
                assert(before + (seq![here[0]] + strip_indent(here.skip(1))) =~= before.push(
                    here[0],
                ) + strip_indent(here.skip(1)));
            }
            i += 1;
        }
    }
    proof {
        assert(text.skip(i as int).len() == 0);
        assert(r@ + Seq::<u8>::empty() =~= r@);
    }
    r
}

/// The byte that was read.
fn byte_read(c: Option<u8>) -> (r: u8)
    requires
        c is Some,
    ensures
        Some(r) == c,
{
    match c {
        Some(x) => x,
        None => whitespace::SPACE,
    }
}

/// Recognizes fenced front matter.
pub fn lex_yaml_matter(input: StringScanner) -> (r: LexerResult<(StringScanner, Token)>)
    ensures
        scanner::recognized(input, yaml_matter_model(input@), YAML_MATTER@, r),
{
    proof {
        use_type_invariant(&input);
    }
    proof {
        lemma_patterns();
    }
    match input.compare(YAML_OPEN) {
        CompareResult::Match => {
            let body = input.take_from(8);
            match body.find_substring(YAML_CLOSE) {
                Some(k) => {
                    let block = body.take(k);
                    let stripped = strip_block_indent(&block);
                    match scanner::text_from_bytes(stripped.as_slice()) {
                        Some(text) => match decode_mapping(text.as_str()) {
                            Ok(parsed) => {
                                return Ok((input.take_from(8 + k + 6), Token::YamlMatter(parsed)));
                            },
                            Err(_) => {},
                        },
                        None => {},
                    }
                },
                None => {},
            }
        },
        _ => {},
    }
    Err(scanner::error_at(input.location(), YAML_MATTER))
}

} // verus!

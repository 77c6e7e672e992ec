//! Blocks: a line that is not empty, and the indented lines that follow
//! it.

use crate::lex::scanner::{self, LexerResult, StringScanner};
use crate::lex::whitespace::{self, CharClass};
use crate::lex::basic;
use vstd::prelude::*;
use vstd::string::StringSliceAdditionalSpecFns;

verus! {

/// The name under which a line that is not empty is refused.
pub const EMPTY_LINE: &'static str = "empty line";

/// The two spaces with which the lines of a block start.
pub const BLOCK_INDENT: &'static str = "  ";

/// The text of a block: its lines, one behind the other, without their
/// line feeds and without the empty lines between them.
pub struct Block(pub String);

impl View for Block {
    type V = Seq<char>;

    open spec fn view(&self) -> Seq<char> {
        self.0@
    }
}

/// The bytes of the indent of a block's lines.
pub open spec fn block_indent() -> Seq<u8> {
    seq![32u8, 32u8]
}

/// The indent of a block's lines is those bytes.
pub proof fn lemma_block_indent()
    ensures
        BLOCK_INDENT.spec_bytes() == block_indent(),
{
    reveal_strlit("  ");
    scanner::lemma_ascii_bytes(BLOCK_INDENT@);
    assert(BLOCK_INDENT.spec_bytes() =~= block_indent());
}

/// The length of the first line of `s`, without its line feed.
pub open spec fn line_length(s: Seq<u8>) -> nat {
    match scanner::first_occurrence(s, basic::line_end()) {
        Some(k) => k,
        None => s.len(),
    }
}

/// The length of the first line of `s`, with its line feed if it has one.
pub open spec fn line_extent(s: Seq<u8>) -> nat {
    match scanner::first_occurrence(s, basic::line_end()) {
        Some(k) => k + 1,
        None => s.len(),
    }
}

/// The line holds nothing but spaces.
pub open spec fn is_empty_line(line: Seq<u8>) -> bool {
    whitespace::span(line, CharClass::Space) == line.len()
}

/// The first line of `s` holds nothing but spaces.
pub open spec fn starts_with_empty_line(s: Seq<u8>) -> bool {
    is_empty_line(s.take(line_length(s) as int))
}

/// A line lies inside the text, and a text that is not empty has a line that takes
/// at least one byte.
pub proof fn lemma_line_bounds(s: Seq<u8>)
    ensures
        line_length(s) <= line_extent(s) <= s.len(),
        s.len() > 0 ==> line_extent(s) > 0,
{
    let found = scanner::first_occurrence(s, basic::line_end());
    if found is Some {
        let i = choose|i: int| scanner::first_at(s, basic::line_end(), i);
        assert(scanner::occurs_at(s, basic::line_end(), i));
    }
}

/// The length of the empty lines at the start of `s`.
pub open spec fn empty_lines(s: Seq<u8>) -> nat
    decreases s.len(),
{
    if s.len() > 0 && starts_with_empty_line(s) {
        proof {
            lemma_line_bounds(s);
        }
        line_extent(s) + empty_lines(s.skip(line_extent(s) as int))
    } else {
        0
    }
}

/// The empty lines at the start of a text lie inside it.
pub proof fn lemma_empty_lines_bound(s: Seq<u8>)
    ensures
        empty_lines(s) <= s.len(),
    decreases s.len(),
{
    if s.len() > 0 && starts_with_empty_line(s) {
        lemma_line_bounds(s);
        lemma_empty_lines_bound(s.skip(line_extent(s) as int));
    }
}

/// What a block takes of `s` from `pos` on, behind the lines that are in
/// `block` already: empty lines are passed over, a line that starts with
/// two spaces joins the block, and the first other line ends the block and
/// stays. The result is the text of the block and the position behind it.
pub open spec fn block_rest(s: Seq<u8>, pos: nat, block: Seq<u8>) -> (Seq<u8>, nat)
    decreases s.len() - pos,
{
    let here = s.skip(pos as int);
    let line = here.take(line_length(here) as int);
    if pos >= s.len() {
        (block, pos)
    } else {
        proof {
            lemma_line_bounds(here);
        }
        if is_empty_line(line) {
            block_rest(s, pos + line_extent(here), block)
        } else if scanner::starts_with(line, block_indent()) {
            block_rest(s, pos + line_extent(here), block + line)
        } else {
            (block, pos)
        }
    }
}

/// The first block of `s`: the empty lines before it are passed over, its
/// first line is taken as it is, and then the indented lines that follow.
/// A text of empty lines holds an empty block.
pub open spec fn block_model(s: Seq<u8>) -> (Seq<u8>, nat) {
    let start = empty_lines(s);
    let here = s.skip(start as int);
    if start >= s.len() {
        (Seq::empty(), s.len())
    } else {
        block_rest(s, start + line_extent(here), here.take(line_length(here) as int))
    }
}

/// A block ends inside the text and never before the position it started from.
pub proof fn lemma_block_rest_bound(s: Seq<u8>, pos: nat, block: Seq<u8>)
    requires
        pos <= s.len(),
    ensures
        pos <= block_rest(s, pos, block).1 <= s.len(),
    decreases s.len() - pos,
{
    let here = s.skip(pos as int);
    let line = here.take(line_length(here) as int);
    if pos < s.len() {
        lemma_line_bounds(here);
        if is_empty_line(line) {
            lemma_block_rest_bound(s, pos + line_extent(here), block);
        } else if scanner::starts_with(line, block_indent()) {
            lemma_block_rest_bound(s, pos + line_extent(here), block + line);
        }
    }
}

/// Whether a line holds nothing but spaces.
pub fn is_line_empty(line: &StringScanner) -> (r: bool)
    ensures
        r == is_empty_line(line@),
{
    proof {
        use_type_invariant(line);
    }
    proof {
        assert(line@.skip(0) =~= line@);
    }
    whitespace::span_from(line, 0, CharClass::Space) == line.input_len()
}

/// Consumes a line with its line feed, or what is left of the text where
/// no line feed follows. The result is what is left behind the line, and
/// the line without its line feed.
pub fn parse_line(input: StringScanner) -> (r: LexerResult<(StringScanner, StringScanner)>)
    ensures
        r matches Ok((rest, line)) && {
            &&& line_length(input@) <= line_extent(input@) <= input@.len()
            &&& rest.follows(input, line_extent(input@))
            &&& line.heads(input, line_length(input@))
            &&& line@ == input@.take(line_length(input@) as int)
            &&& rest@ == input@.skip(line_extent(input@) as int)
            &&& scanner::is_text(input@) ==> scanner::is_text(line@) && scanner::is_text(rest@)
        },
{
    proof {
        use_type_invariant(&input);
    }
    proof {
        lemma_line_bounds(input@);
        basic::lemma_patterns();
    }
    match input.find_substring(basic::LINE_END) {
        Some(k) => {
            proof {
                assert(input@.subrange(k as int, k + 1)[0] == input@[k as int]);
                if scanner::is_text(input@) {
                    scanner::lemma_cut_text(input@, k as int);
                    scanner::lemma_cut_text(input@, k + 1);
                }
            }
            Ok((input.take_from(k + 1), input.take(k)))
        },
        None => {
            let n = input.input_len();
            proof {
                if scanner::is_text(input@) {
                    scanner::lemma_cut_text(input@, n as int);
                }
            }
            Ok((input.take_from(n), input.take(n)))
        },
    }
}

/// Consumes a line that holds nothing but spaces.
pub fn parse_empty_line(input: StringScanner) -> (r: LexerResult<(StringScanner, ())>)
    ensures
        match r {
            Ok((rest, _)) => starts_with_empty_line(input@) && line_extent(input@) <= input@.len()
                && rest.follows(input, line_extent(input@)) && (scanner::is_text(input@)
                ==> scanner::is_text(rest@)),
            Err(e) => !starts_with_empty_line(input@) && e@ == scanner::no_match(
                input.location() as nat,
                EMPTY_LINE@,
            ),
        },
{
    proof {
        use_type_invariant(&input);
    }
    let location = input.location();
    match parse_line(input) {
        Ok((rest, line)) => {
            if !is_line_empty(&line) {
                return Err(scanner::error_at(location, EMPTY_LINE));
            }
            Ok((rest, ()))
        },
        Err(e) => Err(scanner::error_at(location, EMPTY_LINE)),
    }
}

/// The parser of blocks.
pub struct BlockParser {}

impl BlockParser {
    /// Parses the first block of `input`. The result is what is left
    /// behind the block, and the block.
    pub fn parse(input: StringScanner) -> (r: LexerResult<(StringScanner, Block)>)
        requires
            scanner::is_text(input@),
        ensures
            r matches Ok((rest, block)) && {
                &&& scanner::is_text(block_model(input@).0)
                &&& block@ == scanner::text_of(block_model(input@).0)
                &&& block_model(input@).1 <= input@.len()
                &&& rest.follows(input, block_model(input@).1)
            },
    {
        proof {
            use_type_invariant(&input);
        }
        let ghost s = input@;
        let n = input.input_len();
        let mut i = input.clone();
        let mut block: Vec<u8> = Vec::new();
        proof {
            assert(s.skip(0) =~= s);
            lemma_empty_lines_bound(s);
        }
        loop
            invariant
                input.wf(),
                s == input@,
                n == s.len(),
                i.wf(),
                i.source() == input.source(),
                i.end() == input.end(),
                input.start() <= i.start() <= input.end(),
                block@ == Seq::<u8>::empty(),
                scanner::is_text(i@),
                empty_lines(s) == (i.start() - input.start()) + empty_lines(
                    s.skip(i.start() - input.start()),
                ),
            ensures
                i.wf(),
                i.source() == input.source(),
                i.end() == input.end(),
                input.start() <= i.start() < input.end(),
                empty_lines(s) == i.start() - input.start(),
                block@ == Seq::<u8>::empty(),
                scanner::is_text(i@),
            decreases input.end() - i.start(),
        {
            let ghost at = (i.start() - input.start()) as nat;
            proof {
                assert(i@ =~= s.skip(at as int));
            }
            if i.is_empty() {
                proof {
                    assert(i.follows(input, at));
                    scanner::lemma_ascii_is_text(Seq::<u8>::empty());
                    assert(scanner::ascii_of(Seq::<u8>::empty()) =~= Seq::<char>::empty());
                }
                return Ok((i, Block(String::new())));
            }
            match parse_empty_line(i.clone()) {
                Ok((next_i, _)) => {
                    proof {
                        lemma_line_bounds(i@);
                        assert(s.skip(at as int).skip(line_extent(i@) as int) =~= s.skip(
                            (at + line_extent(i@)) as int,
                        ));
                    }
                    i = next_i;
                },
                Err(_) => {
                    break ;
                },
            }
        }
        let ghost start = (i.start() - input.start()) as nat;
        proof {
            assert(i@ =~= s.skip(start as int));
            lemma_line_bounds(i@);
        }
        let (next_i, initial_line) = match parse_line(i) {
            Ok(x) => x,
            Err(e) => {
                return Err(e);
            },
        };
        i = next_i;
        initial_line.append_to(&mut block);
        proof {
            assert(block@ =~= initial_line@);
        }
        loop
            invariant
                input.wf(),
                s == input@,
                n == s.len(),
                i.wf(),
                i.source() == input.source(),
                i.end() == input.end(),
                input.start() <= i.start() <= input.end(),
                block_model(s) == block_rest(s, (i.start() - input.start()) as nat, block@),
                scanner::is_text(i@),
                scanner::is_text(block@),
            ensures
                i.wf(),
                i.source() == input.source(),
                i.end() == input.end(),
                input.start() <= i.start() <= input.end(),
                block_model(s) == (block@, (i.start() - input.start()) as nat),
                scanner::is_text(block@),
            decreases input.end() - i.start(),
        {
            let ghost at = (i.start() - input.start()) as nat;
            let ghost text = block@;
            proof {
                assert(i@ =~= s.skip(at as int));
                lemma_line_bounds(i@);
            }
            if i.is_empty() {
                break ;
            }
            match parse_empty_line(i.clone()) {
                Ok((next_i, _)) => {
                    i = next_i;
                    continue ;
                },
                Err(_) => {},
            }
            let (next_i, next_line) = match parse_line(i.clone()) {
                Ok(x) => x,
                Err(e) => {
                    return Err(e);
                },
            };
            proof {
                lemma_block_indent();
            }
            match next_line.compare(BLOCK_INDENT) {
                scanner::CompareResult::Match => {},
                _ => {
                    break ;
                },
            }
            i = next_i;
            proof {
                scanner::lemma_join_texts(block@, next_line@);
            }
            next_line.append_to(&mut block);
        }
        proof {
            assert(i.follows(input, (i.start() - input.start()) as nat));
        }
        match scanner::text_from_bytes(block.as_slice()) {
            Some(text) => Ok((i, Block(text))),
            None => Ok((i, Block(String::new()))),
        }
    }
}

} // verus!

use boki::ast;
use boki::input::block::{is_line_empty, parse_empty_line, parse_line, Block, BlockParser};
use boki::input::common::{eol, parse_eols, parse_whitespace};
use boki::input::statement::{Statement, StatementParser};
use boki::input::timestamp::TimestampParser;
use boki::input::transaction::{parse_transaction_header, TransactionParser};
use boki::lex::scanner::StringScanner;
use boki::tokens::Timestamp;

fn rest_of_eol(input: &str) -> Option<String> {
    eol(input.into()).ok().map(|(rest, _)| rest.as_str())
}

fn rest_of_eols(input: &str) -> Option<String> {
    parse_eols(input.into()).ok().map(|(rest, _)| rest.as_str())
}

#[test]
fn input_eol_parses_empty_line() {
    assert_eq!(rest_of_eol("\n"), Some("".to_string()))
}

#[test]
fn input_eol_parses_empty_line_with_spaces() {
    assert_eq!(rest_of_eol("   \n"), Some("".to_string()))
}

#[test]
fn input_eol_fails_on_empty_string() {
    assert!(eol("".into()).is_err())
}

#[test]
fn input_eol_fails_on_non_empty_line() {
    assert!(eol("  asdasd".into()).is_err());
    assert!(eol("2026-01-01".into()).is_err())
}

#[test]
fn input_parse_eols_parses_empty_string() {
    assert_eq!(rest_of_eols(""), Some("".to_string()));
}

#[test]
fn input_parse_eols_parses_one_line() {
    assert_eq!(rest_of_eols("  \n"), Some("".to_string()));
}

#[test]
fn input_parse_eols_parses_two_lines() {
    assert!(parse_eols("\n    \n".into()).is_ok());
}

#[test]
fn common_eol_parses_empty_line() {
    assert_eq!(rest_of_eol("\n"), Some("".to_string()))
}

#[test]
fn common_eol_parses_empty_line_with_spaces() {
    assert_eq!(rest_of_eol("   \n"), Some("".to_string()))
}

#[test]
fn eol_leaves_the_next_line() {
    assert_eq!(rest_of_eol("   \nnext"), Some("next".to_string()))
}

#[test]
fn common_eol_fails_on_empty_string() {
    assert!(eol("".into()).is_err())
}

#[test]
fn common_eol_fails_on_non_empty_line() {
    assert!(eol("  asdasd".into()).is_err());
    assert!(eol("2026-01-01".into()).is_err())
}

#[test]
fn eol_needs_spaces_and_a_line_feed() {
    let e = eol("".into()).expect_err("Should have failed.");
    assert_eq!(e.location, 0);
    assert!(eol("   ".into()).is_err());
    assert!(eol("\t\n".into()).is_err());
}

#[test]
fn common_parse_eols_parses_empty_string() {
    assert_eq!(rest_of_eols(""), Some("".to_string()));
}

#[test]
fn common_parse_eols_parses_one_line() {
    assert_eq!(rest_of_eols("  \n"), Some("".to_string()));
}

#[test]
fn common_parse_eols_parses_two_lines() {
    assert!(parse_eols("\n    \n".into()).is_ok());
}

#[test]
fn parse_eols_stops_at_the_first_line_that_is_not_empty() {
    assert_eq!(rest_of_eols("\n    \n"), Some("".to_string()));
    assert_eq!(rest_of_eols("\n    \n  x\n"), Some("  x\n".to_string()));
    assert_eq!(rest_of_eols("x\n\n"), Some("x\n\n".to_string()));
}

#[test]
fn parse_whitespace_takes_spaces_only() {
    let (rest, _) = parse_whitespace("  \t x".into()).expect("Failed.");
    assert_eq!(rest.as_str(), "\t x");
    let (rest, _) = parse_whitespace("x".into()).expect("Failed.");
    assert_eq!(rest.as_str(), "x");
}

#[test]
fn lines_end_at_the_line_feed_or_at_the_end() {
    let (rest, line) = parse_line("ab\ncd".into()).expect("Failed.");
    assert_eq!(line.as_str(), "ab");
    assert_eq!(rest.as_str(), "cd");
    let (rest, line) = parse_line("cd".into()).expect("Failed.");
    assert_eq!(line.as_str(), "cd");
    assert!(rest.is_empty());
    let (rest, line) = parse_line("".into()).expect("Failed.");
    assert!(line.is_empty());
    assert!(rest.is_empty());
    let (rest, _) = parse_empty_line("   \nx".into()).expect("Failed.");
    assert_eq!(rest.as_str(), "x");
    parse_empty_line(" x \n".into()).expect_err("Should have failed.");
    parse_empty_line("\t\n".into()).expect_err("Should have failed.");
    assert!(is_line_empty(&StringScanner::from("    ")));
    assert!(is_line_empty(&StringScanner::from("")));
    assert!(!is_line_empty(&StringScanner::from("  x")));
}

#[test]
fn test_empty() {
    let input = "\n";
    BlockParser::parse(input.into()).expect("Failed.");
}

#[test]
fn block_test_empty() {
    let input = "\n";
    let (rest, Block(block)) = BlockParser::parse(input.into()).expect("Failed.");
    assert_eq!(block, "");
    assert!(rest.is_empty());
}

#[test]
fn test_ok_simple() {
    let input = "foo\n  a\n  b\n";
    let (rest, Block(block)) = BlockParser::parse(input.into()).expect("Failed.");
    assert!(block.starts_with("foo"));
    assert_eq!(rest.as_str(), "");
}

#[test]
fn test_ok_if_block_ends_on_eof() {
    let input = "foo\n  a\n  b";
    let (rest, Block(block)) = BlockParser::parse(input.into()).expect("Failed.");
    assert!(block.starts_with("foo"));
    assert_eq!(rest.as_str(), "");
}

#[test]
fn test_ok_consumes_preceding_whitespace() {
    let input = "\n  \n     \nfoo\n  a\n  b\n";
    let (rest, Block(block)) = BlockParser::parse(input.into()).expect("Failed.");
    assert!(block.starts_with("foo"));
    assert_eq!(rest.as_str(), "");
}

#[test]
fn test_ok_consumes_following_whitespace() {
    let input = "foo\n  a\n  b\n   \n  \n\n  \n";
    let (rest, Block(block)) = BlockParser::parse(input.into()).expect("Failed.");
    assert!(block.starts_with("foo"));
    assert_eq!(rest.as_str(), "");
}

#[test]
fn test_ok_stops_before_next_block() {
    let input = "foo\n  a\n  b\nbar\n  baz\n";
    let (rest, Block(block)) = BlockParser::parse(input.into()).expect("Failed.");
    assert!(block.starts_with("foo"));
    assert!(rest.as_str().starts_with("bar"));
}

#[test]
fn block_joins_its_lines() {
    let (rest, Block(block)) =
        BlockParser::parse("\n  \nfoo\n  a\n\n   \n  b\nbar\n".into()).expect("Failed.");
    assert_eq!(block, "foo  a  b");
    assert_eq!(rest.as_str(), "bar\n");
    assert_eq!(rest.location(), 21);
    let (rest, Block(block)) = BlockParser::parse("".into()).expect("Failed.");
    assert_eq!(block, "");
    assert!(rest.is_empty());
    let (rest, Block(block)) = BlockParser::parse("  indented\nnext".into()).expect("Failed.");
    assert_eq!(block, "  indented");
    assert_eq!(rest.as_str(), "next");
}

fn timestamp(s: &str) -> Timestamp {
    let t = chrono::DateTime::parse_from_rfc3339(s).unwrap();
    Timestamp {
        seconds: t.timestamp(),
        nanoseconds: t.timestamp_subsec_nanos(),
        offset_seconds: t.offset().local_minus_utc(),
    }
}

#[test]
fn timestamp_parser_reads_both_forms() {
    let (rest, t) = TimestampParser::parse("2026-01-01".into()).expect("Failed.");
    assert!(rest.is_empty());
    assert_eq!(t, timestamp("2026-01-01T00:00:00.000Z"));
    let (rest, t) =
        TimestampParser::parse("2026-01-01 00:00:00.000+00:00\n".into()).expect("Failed.");
    assert_eq!(rest.as_str(), "\n");
    assert_eq!(t, timestamp("2026-01-01T00:00:00.000Z"));
    TimestampParser::parse("soon".into()).expect_err("Should have failed.");
}

#[test]
fn test_parse_transaction_simple() {
    let input = "2025-01-01\n  asset/cce/cash;JPY;-1000\n  expense;JPY;1000\n";

    let (_, result) = TransactionParser::parse(input.into()).expect("Could not parse.");
    assert_eq!(result.header.timestamp, timestamp("2025-01-01T00:00:00Z"));
    assert_eq!(
        result.postings,
        vec![
            ast::Posting {
                account: "asset/cce/cash".to_string(),
                commodity: Some("JPY".to_string()),
                amount: Some(-1000)
            },
            ast::Posting {
                account: "expense".to_string(),
                commodity: Some("JPY".to_string()),
                amount: Some(1000)
            }
        ]
    );
}

#[test]
fn test_parse_transaction_stops_on_new_transaction() {
    let input = "2025-01-01\n  asset/cce/cash;JPY;-1000\n  expense;JPY;1000\n2025-01-02\n";

    let (rest, _result) = TransactionParser::parse(input.into()).expect("Could not parse.");
    assert!(rest.as_str().starts_with("2025-01-02"));
}

#[test]
fn transaction_lines_pass_over_empty_lines_behind_an_indent() {
    let (rest, result) =
        TransactionParser::parse("2025-01-01  \n  a;;1\n   \n\n  b;;\n   \n".into())
            .expect("Could not parse.");
    assert_eq!(result.postings.len(), 2);
    assert!(rest.is_empty());
    // an empty line without indent ends the postings
    let (rest, result) =
        TransactionParser::parse("2025-01-01\n  a;;1\n\n  b;;\n".into()).expect("Could not parse.");
    assert_eq!(result.postings.len(), 1);
    assert_eq!(rest.as_str(), "\n  b;;\n");
    // behind indented empty lines a posting must follow
    let e = TransactionParser::parse("2025-01-01\n  a;;1\n   \nnext\n".into())
        .expect_err("Should have failed.");
    assert_eq!(e.location, 0);
    TransactionParser::parse("2025-01-01 x\n".into()).expect_err("Should have failed.");
    TransactionParser::parse("2025-01-01".into()).expect_err("Should have failed.");
    let (rest, header) = parse_transaction_header("2025-01-01\nx".into()).expect("Failed.");
    assert_eq!(header.timestamp, timestamp("2025-01-01T00:00:00Z"));
    assert!(header.attributes.is_empty());
    assert_eq!(rest.as_str(), "x");
}

#[test]
fn a_statement_is_a_transaction() {
    let (rest, statement) =
        StatementParser::parse("2025-01-01\n  a;;1\nnext".into()).expect("Could not parse.");
    let Statement::TransactionStatement(t) = statement;
    assert_eq!(t.postings.len(), 1);
    assert_eq!(rest.as_str(), "next");
    StatementParser::parse("next".into()).expect_err("Should have failed.");
}

#[test]
fn block_lines_may_hold_any_text() {
    let input = "caf\u{e9}\n  \u{20ac}1\n\n  z\u{fc}\nnext\n";
    let scanner = StringScanner::from(input);
    let (rest, Block(block)) = BlockParser::parse(scanner).expect("Failed.");
    assert_eq!(block, "caf\u{e9}  \u{20ac}1  z\u{fc}");
    assert_eq!(rest.as_str(), "next\n");
    assert_eq!(rest.location(), 20);
}

#[test]
fn lines_are_cut_at_bytes() {
    let (rest, line) = parse_line("\u{e9}\u{e9}\nx".into()).expect("Failed.");
    assert_eq!(line.as_str(), "\u{e9}\u{e9}");
    assert_eq!(line.input_len(), 4);
    assert_eq!(rest.as_str(), "x");
    assert_eq!(rest.location(), 5);
}

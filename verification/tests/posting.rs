use boki::ast::Posting;
use boki::input::posting::PostingParser;

#[test]
fn test_posting_parser_succeeds_account_currency_amount() {
    let input = "  asset/cce/cash;JPY;1000";
    let (_, result) = PostingParser::parse(&input).expect("Could not parse.");
    assert_eq!(
        result,
        Posting {
            account: "asset/cce/cash".to_string(),
            commodity: Some("JPY".to_string()),
            amount: Some(1000)
        }
    )
}

#[test]
fn test_posting_parser_succeeds_account_amount() {
    let input = "  asset/cce/cash;;1000";
    let (_, result) = PostingParser::parse(&input).expect("Could not parse.");
    assert_eq!(
        result,
        Posting {
            account: "asset/cce/cash".to_string(),
            commodity: None,
            amount: Some(1000)
        }
    )
}

#[test]
fn test_posting_parser_succeeds_account_commodity() {
    let input = "  asset/cce/cash;JPY;";
    let (_, result) = PostingParser::parse(&input).expect("Could not parse.");
    assert_eq!(
        result,
        Posting {
            account: "asset/cce/cash".to_string(),
            commodity: Some("JPY".to_string()),
            amount: None
        }
    )
}

#[test]
fn test_posting_parser_stops_after_newline() {
    let input = "  asset/cce/cash;JPY;\nfoobar";
    let (rest, _result) = PostingParser::parse(&input).expect("Could not parse.");
    assert_eq!(rest, "foobar")
}

#[test]
fn test_posting_parser_rejects_eof() {
    let input = "";
    PostingParser::parse(&input).expect_err("Should have failed.");
}

#[test]
fn test_posting_parser_rejects_empty_line() {
    let input = "       \n";
    PostingParser::parse(&input).expect_err("Should have failed.");
}

#[test]
fn posting_parser_reads_the_amount_column() {
    let (_, result) = PostingParser::parse("  a;JPY;-1,000").expect("Could not parse.");
    assert_eq!(result.amount, Some(-1000));
    let (rest, result) = PostingParser::parse("  a;;+7\n  b;;").expect("Could not parse.");
    assert_eq!(result.amount, Some(7));
    assert_eq!(result.commodity, None);
    assert_eq!(rest, "  b;;");
    PostingParser::parse("  a;JPY;lots").expect_err("Should have failed.");
    PostingParser::parse("  a;JPY;10 apples").expect_err("Should have failed.");
}

#[test]
fn posting_parser_needs_the_indent_and_both_separators() {
    PostingParser::parse("a;JPY;1").expect_err("Should have failed.");
    PostingParser::parse(" a;JPY;1").expect_err("Should have failed.");
    let e = PostingParser::parse("  a;JPY").expect_err("Should have failed.");
    assert_eq!(e.location, 0);
    let (_, result) = PostingParser::parse("  ;;").expect("Could not parse.");
    assert_eq!(
        result,
        Posting {
            account: "".to_string(),
            commodity: None,
            amount: None
        }
    );
    assert_eq!(PostingParser::empty_str_is_none("".to_string()), None);
    assert_eq!(
        PostingParser::empty_str_is_none("x".to_string()),
        Some("x".to_string())
    );
}

#[test]
fn posting_columns_may_hold_any_text() {
    let input = "  \u{8cc7}\u{7523}/\u{73fe}\u{91d1};\u{5186};-1,000\n  next;;";
    let (rest, result) = PostingParser::parse(&input).expect("Could not parse.");
    assert_eq!(
        result,
        Posting {
            account: "\u{8cc7}\u{7523}/\u{73fe}\u{91d1}".to_string(),
            commodity: Some("\u{5186}".to_string()),
            amount: Some(-1000)
        }
    );
    assert_eq!(rest, "  next;;");
}

use boki::ast;
use boki::parse::basic::{
    parse_account_separator, parse_amount, parse_indent, parse_keyword, parse_line_separator,
    parse_posting_separator, parse_timestamp, parse_yaml_matter,
};
use boki::parse::cursor::{get_next, peek_next, ParserErrorDetails, TokenScanner};
use boki::parse::set_attributes::SetAttributeParser;
use boki::parse::transaction::TransactionParser;
use boki::parse::{
    parse_a_node, parse_comments, parse_initial_whitespace_and_comments, parse_node, parse_nodes,
    parse_set_attribute, parse_tokens, parse_transaction,
};
use boki::tokens::{Keyword, Timestamp, Token};

fn sample_timestamp() -> Timestamp {
    let t = chrono::DateTime::parse_from_rfc3339("2026-01-02T03:04:05.000+09:00").unwrap();
    Timestamp {
        seconds: t.timestamp(),
        nanoseconds: t.timestamp_subsec_nanos(),
        offset_seconds: t.offset().local_minus_utc(),
    }
}

fn ident(s: &str) -> Token {
    Token::Identifier(s.to_string())
}

fn two_postings() -> Vec<Token> {
    vec![
        Token::Timestamp(sample_timestamp()),
        Token::LineSeparator,
        Token::Indent,
        Token::Identifier("asset".to_string()),
        Token::AccountSeparator,
        Token::Identifier("cce".to_string()),
        Token::AccountSeparator,
        Token::Identifier("cash".to_string()),
        Token::PostingSeparator,
        Token::Identifier("JPY".to_string()),
        Token::PostingSeparator,
        Token::Amount(1000),
        Token::LineSeparator,
        Token::Indent,
        Token::Identifier("expense".to_string()),
        Token::PostingSeparator,
        Token::Identifier("JPY".to_string()),
        Token::PostingSeparator,
        Token::Amount(1000),
        Token::LineSeparator,
    ]
}

#[test]
fn test_eof_token() {
    let mut scanner = TokenScanner::from_slice(&[Token::Eof]);
    let node = parse_node(&mut scanner).expect("Failed.");
    assert!(node.is_none());
}

#[test]
fn parse_test_eof_token() {
    let mut scanner = TokenScanner::from_slice(&[Token::Eof]);
    let node = parse_node(&mut scanner).expect("Failed.");
    assert!(node.is_none());
    assert_eq!(scanner.tell(), 0);
}

#[test]
fn parse_v2_test_eof_token() {
    let mut scanner = TokenScanner::from_slice(&[Token::Eof]);
    let node = parse_node(&mut scanner).expect("Failed.");
    assert!(node.is_none());
}

#[test]
fn eof_ends_the_nodes_whatever_follows() {
    let mut scanner =
        TokenScanner::from_slice(&[Token::LineSeparator, Token::Eof, Token::Indent]);
    let node = parse_node(&mut scanner).expect("Failed.");
    assert!(node.is_none());
    assert_eq!(scanner.tell(), 1);
}

#[test]
fn test_no_tokens() {
    let mut scanner = TokenScanner::from_slice(&[]);
    let err = parse_node(&mut scanner).expect_err("Should have failed.");
    assert!(matches!(err.details, ParserErrorDetails::Incomplete));
}

#[test]
fn parse_test_no_tokens() {
    let mut scanner = TokenScanner::from_slice(&[]);
    let err = parse_node(&mut scanner).expect_err("Should have failed.");
    assert!(matches!(err.details, ParserErrorDetails::Incomplete));
    assert_eq!(err.location, 0);
}

#[test]
fn parse_v2_test_no_tokens() {
    let mut scanner = TokenScanner::from_slice(&[]);
    let err = parse_node(&mut scanner).expect_err("Should have failed.");
    assert!(matches!(err.details, ParserErrorDetails::Incomplete));
}

#[test]
fn nodes_need_the_eof_token() {
    let mut scanner = TokenScanner::from_slice(&[]);
    let err = parse_nodes(&mut scanner).expect_err("Should have failed.");
    assert!(matches!(err.details, ParserErrorDetails::Incomplete));
    let mut scanner = TokenScanner::from_slice(&two_postings());
    let err = parse_nodes(&mut scanner).expect_err("Should have failed.");
    assert!(matches!(err.details, ParserErrorDetails::Incomplete));
    assert_eq!(err.location, 20);
}

#[test]
fn test_initial_whitespace_no_eof() {
    let mut scanner = TokenScanner::from_slice(&[
        Token::LineSeparator,
        Token::Comment("foo".to_string()),
        Token::LineSeparator,
    ]);
    let err = parse_node(&mut scanner).expect_err("Should have failed.");
    assert!(matches!(err.details, ParserErrorDetails::Incomplete));
    assert_eq!(err.location, 3)
}

#[test]
fn parse_test_initial_whitespace_no_eof() {
    let mut scanner = TokenScanner::from_slice(&[
        Token::LineSeparator,
        Token::Comment("foo".to_string()),
        Token::LineSeparator,
    ]);
    let err = parse_node(&mut scanner).expect_err("Should have failed.");
    assert!(matches!(err.details, ParserErrorDetails::Incomplete));
    assert_eq!(err.location, 3)
}

#[test]
fn parse_v2_test_initial_whitespace_no_eof() {
    let mut scanner = TokenScanner::from_slice(&[
        Token::LineSeparator,
        Token::Comment("foo".to_string()),
        Token::LineSeparator,
    ]);
    let err = parse_node(&mut scanner).expect_err("Should have failed.");
    assert!(matches!(err.details, ParserErrorDetails::Incomplete));
    assert_eq!(err.location, 3)
}

#[test]
fn blank_tokens_are_passed_over() {
    let mut scanner = TokenScanner::from_slice(&[
        Token::LineSeparator,
        Token::Comment("foo".to_string()),
        Token::LineSeparator,
    ]);
    let err = parse_initial_whitespace_and_comments(&mut scanner).expect_err("Should have failed.");
    assert!(matches!(err.details, ParserErrorDetails::Incomplete));
    assert_eq!(err.location, 3);
    let mut scanner = TokenScanner::from_slice(&[
        Token::Comment("foo".to_string()),
        Token::LineSeparator,
        Token::Indent,
    ]);
    parse_initial_whitespace_and_comments(&mut scanner).expect("Failed.");
    assert_eq!(scanner.tell(), 2);
}

#[test]
fn test_single_transaction() {
    let ts = chrono::DateTime::parse_from_rfc3339("2026-01-01T00:00:00.000+09:00").unwrap();
    let ts = Timestamp {
        seconds: ts.timestamp(),
        nanoseconds: ts.timestamp_subsec_nanos(),
        offset_seconds: ts.offset().local_minus_utc(),
    };
    let mut scanner = TokenScanner::from_slice(&[
        Token::Timestamp(ts),
        Token::LineSeparator,
        Token::Indent,
        Token::Identifier("asset".to_string()),
        Token::AccountSeparator,
        Token::Identifier("cce".to_string()),
        Token::AccountSeparator,
        Token::Identifier("cash".to_string()),
        Token::PostingSeparator,
        Token::Identifier("JPY".to_string()),
        Token::PostingSeparator,
        Token::Amount(1000),
        Token::LineSeparator,
        Token::Indent,
        Token::Identifier("expense".to_string()),
        Token::PostingSeparator,
        Token::Identifier("JPY".to_string()),
        Token::PostingSeparator,
        Token::Amount(1000),
        Token::LineSeparator,
    ]);
    let node = parse_node(&mut scanner).expect("Failed.");
    assert!(matches!(node, Some(ast::ASTNode::Transaction(_))));
}

#[test]
fn set_attribute_test_simple() {
    let mut scanner = TokenScanner::from_slice(&[
        Token::Keyword(Keyword::SetAttribute),
        Token::Identifier("default_commodity".to_string()),
        Token::Identifier("JPY".to_string()),
        Token::LineSeparator,
    ]);
    let result = SetAttributeParser::new()
        .parse(&mut scanner)
        .expect("Failed.");
    assert_eq!(result.0, "default_commodity");
    assert_eq!(result.1, "JPY");
}

#[test]
fn set_attributes_test_simple() {
    let mut scanner = TokenScanner::from_slice(&[
        Token::Keyword(Keyword::SetAttribute),
        Token::Identifier("default_commodity".to_string()),
        Token::Identifier("JPY".to_string()),
        Token::LineSeparator,
    ]);
    let result = SetAttributeParser::new()
        .parse(&mut scanner)
        .expect("Failed.");
    assert_eq!(result.0, "default_commodity");
    assert_eq!(result.1, "JPY");
}

#[test]
fn set_attribute_leaves_what_follows() {
    let mut scanner = TokenScanner::from_slice(&[
        Token::Keyword(Keyword::SetAttribute),
        Token::Identifier("default_commodity".to_string()),
        Token::Identifier("JPY".to_string()),
        Token::LineSeparator,
        Token::Eof,
    ]);
    let result = SetAttributeParser::new()
        .parse(&mut scanner)
        .expect("Failed.");
    assert_eq!(result.0, "default_commodity");
    assert_eq!(result.1, "JPY");
    assert_eq!(scanner.tell(), 4);
}

#[test]
fn set_attribute_fails_at_the_first_wrong_token() {
    let mut scanner = TokenScanner::from_slice(&[
        Token::Keyword(Keyword::SetAttribute),
        Token::Identifier("default_commodity".to_string()),
        Token::Amount(1),
        Token::LineSeparator,
    ]);
    let err = SetAttributeParser::new()
        .parse(&mut scanner)
        .expect_err("Should have failed.");
    assert_eq!(err.location, 2);
    let ParserErrorDetails::ExpectedSomethingElse(expected, found) = err.details else {
        panic!("Invalid error.");
    };
    assert_eq!(expected, "identifier");
    assert_eq!(found, Token::Amount(1));
    assert_eq!(scanner.tell(), 3);
}

#[test]
fn test_header_simple() {
    let ts = sample_timestamp();
    let mut scanner = TokenScanner::from_slice(&[Token::Timestamp(ts), Token::LineSeparator]);
    let result = TransactionParser::parse_header(&mut scanner).expect("Failed.");
    assert_eq!(result.timestamp, sample_timestamp());
}

#[test]
fn transaction_test_header_simple() {
    let ts = sample_timestamp();
    let mut scanner = TokenScanner::from_slice(&[Token::Timestamp(ts), Token::LineSeparator]);
    let result = TransactionParser::parse_header(&mut scanner).expect("Failed.");
    assert_eq!(result.timestamp, sample_timestamp());
    assert!(scanner.peek().is_none());
}

#[test]
fn header_without_front_matter_has_no_attributes() {
    let ts = sample_timestamp();
    let mut scanner = TokenScanner::from_slice(&[
        Token::Timestamp(ts),
        Token::LineSeparator,
        Token::Indent,
    ]);
    let result = TransactionParser::parse_header(&mut scanner).expect("Failed.");
    assert_eq!(result.timestamp, sample_timestamp());
    assert!(result.attributes.is_empty());
    assert_eq!(scanner.tell(), 2);
}

#[test]
fn test_header_attributes() {
    let ts = sample_timestamp();
    let mut scanner = TokenScanner::from_slice(&[
        Token::Timestamp(ts),
        Token::LineSeparator,
        Token::YamlMatter(serde_yaml::Mapping::default()),
        Token::LineSeparator,
    ]);
    let result = TransactionParser::parse_header(&mut scanner).expect("Failed.");
    assert_eq!(result.timestamp, sample_timestamp());
}

#[test]
fn transaction_test_header_attributes() {
    let ts = sample_timestamp();
    let mut scanner = TokenScanner::from_slice(&[
        Token::Timestamp(ts),
        Token::LineSeparator,
        Token::YamlMatter(serde_yaml::Mapping::default()),
        Token::LineSeparator,
    ]);
    let result = TransactionParser::parse_header(&mut scanner).expect("Failed.");
    assert_eq!(result.timestamp, sample_timestamp());
    assert!(scanner.peek().is_none());
}

#[test]
fn header_keeps_its_front_matter() {
    let ts = sample_timestamp();
    let mut attributes = serde_yaml::Mapping::default();
    attributes.insert("foo".into(), "bar".into());
    let mut scanner = TokenScanner::from_slice(&[
        Token::Timestamp(ts),
        Token::LineSeparator,
        Token::YamlMatter(attributes.clone()),
        Token::LineSeparator,
    ]);
    let result = TransactionParser::parse_header(&mut scanner).expect("Failed.");
    assert_eq!(result.timestamp, sample_timestamp());
    assert_eq!(result.attributes, attributes);
    assert_eq!(scanner.tell(), 4);
}

#[test]
fn header_without_the_line_end_of_its_front_matter_has_no_attributes() {
    let mut attributes = serde_yaml::Mapping::default();
    attributes.insert("foo".into(), "bar".into());
    let mut scanner = TokenScanner::from_slice(&[
        Token::Timestamp(sample_timestamp()),
        Token::LineSeparator,
        Token::YamlMatter(attributes),
        Token::Indent,
    ]);
    let result = TransactionParser::parse_header(&mut scanner).expect("Failed.");
    assert!(result.attributes.is_empty());
    assert_eq!(scanner.tell(), 2);
}

#[test]
fn test_posting_simple() {
    let mut scanner = TokenScanner::from_slice(&[
        Token::Identifier("asset".to_string()),
        Token::AccountSeparator,
        Token::Identifier("cce".to_string()),
        Token::AccountSeparator,
        Token::Identifier("cash".to_string()),
        Token::PostingSeparator,
        Token::Identifier("JPY".to_string()),
        Token::PostingSeparator,
        Token::Amount(1000),
        Token::LineSeparator,
    ]);
    let result = TransactionParser::parse_posting(&mut scanner).expect("Failed.");
    assert_eq!(result.account, "asset/cce/cash".to_string());
    assert_eq!(result.commodity, Some("JPY".to_string()));
    assert_eq!(result.amount, Some(1000));
}

#[test]
fn transaction_test_posting_simple() {
    let mut scanner = TokenScanner::from_slice(&[
        Token::Identifier("asset".to_string()),
        Token::AccountSeparator,
        Token::Identifier("cce".to_string()),
        Token::AccountSeparator,
        Token::Identifier("cash".to_string()),
        Token::PostingSeparator,
        Token::Identifier("JPY".to_string()),
        Token::PostingSeparator,
        Token::Amount(1000),
        Token::LineSeparator,
    ]);
    let result = TransactionParser::parse_posting(&mut scanner).expect("Failed.");
    assert_eq!(result.account, "asset/cce/cash".to_string());
    assert_eq!(result.commodity, Some("JPY".to_string()));
    assert_eq!(result.amount, Some(1000));
    assert!(scanner.peek().is_none());
}

#[test]
fn test_posting_omitted_commodity() {
    let mut scanner = TokenScanner::from_slice(&[
        Token::Identifier("asset".to_string()),
        Token::AccountSeparator,
        Token::Identifier("cce".to_string()),
        Token::AccountSeparator,
        Token::Identifier("cash".to_string()),
        Token::PostingSeparator,
        Token::PostingSeparator,
        Token::Amount(1000),
        Token::LineSeparator,
    ]);
    let result = TransactionParser::parse_posting(&mut scanner).expect("Failed.");
    assert_eq!(result.commodity, None);
}

#[test]
fn transaction_test_posting_omitted_commodity() {
    let mut scanner = TokenScanner::from_slice(&[
        Token::Identifier("asset".to_string()),
        Token::AccountSeparator,
        Token::Identifier("cce".to_string()),
        Token::AccountSeparator,
        Token::Identifier("cash".to_string()),
        Token::PostingSeparator,
        Token::PostingSeparator,
        Token::Amount(1000),
        Token::LineSeparator,
    ]);
    let result = TransactionParser::parse_posting(&mut scanner).expect("Failed.");
    assert_eq!(result.commodity, None);
    assert_eq!(result.amount, Some(1000));
    assert!(scanner.peek().is_none());
}

#[test]
fn test_posting_omitted_amount() {
    let mut scanner = TokenScanner::from_slice(&[
        Token::Identifier("asset".to_string()),
        Token::AccountSeparator,
        Token::Identifier("cce".to_string()),
        Token::AccountSeparator,
        Token::Identifier("cash".to_string()),
        Token::PostingSeparator,
        Token::Identifier("JPY".to_string()),
        Token::PostingSeparator,
        Token::LineSeparator,
    ]);
    let result = TransactionParser::parse_posting(&mut scanner).expect("Failed.");
    assert_eq!(result.amount, None);
}

#[test]
fn transaction_test_posting_omitted_amount() {
    let mut scanner = TokenScanner::from_slice(&[
        Token::Identifier("asset".to_string()),
        Token::AccountSeparator,
        Token::Identifier("cce".to_string()),
        Token::AccountSeparator,
        Token::Identifier("cash".to_string()),
        Token::PostingSeparator,
        Token::Identifier("JPY".to_string()),
        Token::PostingSeparator,
        Token::LineSeparator,
    ]);
    let result = TransactionParser::parse_posting(&mut scanner).expect("Failed.");
    assert_eq!(result.commodity, Some("JPY".to_string()));
    assert_eq!(result.amount, None);
    assert!(scanner.peek().is_none());
}

#[test]
fn posting_may_omit_commodity_and_amount() {
    let mut scanner = TokenScanner::from_slice(&[
        ident("cash"),
        Token::PostingSeparator,
        Token::PostingSeparator,
        Token::LineSeparator,
    ]);
    let result = TransactionParser::parse_posting(&mut scanner).expect("Failed.");
    assert_eq!(
        result,
        ast::Posting {
            account: "cash".to_string(),
            commodity: None,
            amount: None
        }
    );
}

#[test]
fn account_joins_its_names() {
    let mut scanner = TokenScanner::from_slice(&[
        ident("a"),
        Token::AccountSeparator,
        ident("b"),
        Token::AccountSeparator,
        Token::PostingSeparator,
    ]);
    let account = TransactionParser::parse_account(&mut scanner).expect("Failed.");
    assert_eq!(account, "a/b");
    // the separator without a name behind it is not taken
    assert_eq!(scanner.tell(), 3);
    let mut scanner = TokenScanner::from_slice(&[ident("a")]);
    assert_eq!(
        TransactionParser::parse_account(&mut scanner).expect("Failed."),
        "a"
    );
    let mut scanner = TokenScanner::from_slice(&[Token::AccountSeparator, ident("b")]);
    assert_eq!(
        TransactionParser::parse_subaccount(&mut scanner).expect("Failed."),
        "b"
    );
    let mut scanner = TokenScanner::from_slice(&[ident("JPY")]);
    assert_eq!(
        TransactionParser::parse_commodity(&mut scanner).expect("Failed."),
        "JPY"
    );
}

#[test]
fn transaction_test_simple() {
    let mut scanner = TokenScanner::from_slice(&two_postings());
    let result = TransactionParser::parse(&mut scanner).expect("Failed.");
    assert_eq!(result.header.timestamp, sample_timestamp());
    assert!(result.header.attributes.is_empty());
    assert_eq!(
        result.postings,
        vec![
            ast::Posting {
                account: "asset/cce/cash".to_string(),
                commodity: Some("JPY".to_string()),
                amount: Some(1000)
            },
            ast::Posting {
                account: "expense".to_string(),
                commodity: Some("JPY".to_string()),
                amount: Some(1000)
            },
        ]
    );
    assert!(scanner.peek().is_none());
}

#[test]
fn test_invalid_posting() {
    let ts = sample_timestamp();
    let mut scanner = TokenScanner::from_slice(&[
        Token::Timestamp(ts),
        Token::LineSeparator,
        Token::Indent,
        Token::Identifier("asset".to_string()),
        Token::AccountSeparator,
        Token::Identifier("cce".to_string()),
        Token::AccountSeparator,
        Token::Identifier("cash".to_string()),
        Token::PostingSeparator,
        Token::Identifier("JPY".to_string()),
        // Token::PostingSeparator,
        Token::Amount(1000),
        Token::LineSeparator,
        Token::Indent,
        Token::Identifier("expense".to_string()),
        Token::PostingSeparator,
        Token::Identifier("JPY".to_string()),
        Token::PostingSeparator,
        Token::Amount(1000),
        Token::LineSeparator,
    ]);
    let err = TransactionParser::parse(&mut scanner).expect_err("Should have failed.");
    assert_eq!(err.location, 2);
    let ParserErrorDetails::Nested(_, nested) = err.details else {
        panic!("Invalid error.");
    };
    assert_eq!(nested.location, 10);
    assert!(matches!(
        nested.details,
        ParserErrorDetails::ExpectedSomethingElse(_1, _2)
    ));
}

#[test]
fn invalid_posting_names_its_construct() {
    let mut scanner = TokenScanner::from_slice(&[
        Token::Timestamp(sample_timestamp()),
        Token::LineSeparator,
        Token::Indent,
        Token::Amount(1),
    ]);
    let err = TransactionParser::parse(&mut scanner).expect_err("Should have failed.");
    let ParserErrorDetails::Nested(message, nested) = err.details else {
        panic!("Invalid error.");
    };
    assert_eq!(message, "Encountered invalid posting");
    let ParserErrorDetails::ExpectedSomethingElse(expected, found) = nested.details else {
        panic!("Invalid error.");
    };
    assert_eq!(expected, "identifier");
    assert_eq!(found, Token::Amount(1));
}

#[test]
fn transaction_stops_at_the_first_line_without_indent() {
    let mut tokens = two_postings();
    tokens.push(Token::Timestamp(sample_timestamp()));
    tokens.push(Token::LineSeparator);
    tokens.push(Token::Eof);
    let mut scanner = TokenScanner::from_slice(&tokens);
    let first = TransactionParser::parse(&mut scanner).expect("Failed.");
    assert_eq!(first.postings.len(), 2);
    assert_eq!(scanner.tell(), 20);
    let nodes = {
        let mut scanner = TokenScanner::from_slice(&tokens);
        parse_nodes(&mut scanner).expect("Failed.")
    };
    assert_eq!(nodes.len(), 2);
    let ast::ASTNode::Transaction(second) = &nodes[1] else {
        panic!("Should have parsed a transaction.");
    };
    assert!(second.postings.is_empty());
}

#[test]
fn a_posting_needs_exactly_one_indent() {
    let mut scanner = TokenScanner::from_slice(&[
        Token::Timestamp(sample_timestamp()),
        Token::LineSeparator,
        Token::Indent,
        Token::Indent,
        ident("a"),
        Token::PostingSeparator,
        Token::PostingSeparator,
        Token::LineSeparator,
    ]);
    let err = TransactionParser::parse(&mut scanner).expect_err("Should have failed.");
    assert_eq!(err.location, 2);
    let ParserErrorDetails::Nested(_, nested) = err.details else {
        panic!("Invalid error.");
    };
    assert_eq!(nested.location, 3);
}

#[test]
fn a_node_is_a_transaction_or_a_set_attribute() {
    let mut scanner = TokenScanner::from_slice(&[
        Token::Comment("note".to_string()),
        Token::LineSeparator,
        Token::Keyword(Keyword::SetAttribute),
        ident("default_commodity"),
        ident("JPY"),
        Token::LineSeparator,
        Token::Eof,
    ]);
    let node = parse_node(&mut scanner).expect("Failed.");
    assert_eq!(
        node,
        Some(ast::ASTNode::SetAttribute(
            "default_commodity".to_string(),
            "JPY".to_string()
        ))
    );
    assert_eq!(scanner.tell(), 6);
    assert_eq!(parse_node(&mut scanner).expect("Failed."), None);
}

#[test]
fn a_node_that_is_neither_reports_both_branches() {
    let mut scanner = TokenScanner::from_slice(&[
        Token::LineSeparator,
        ident("oops"),
        Token::LineSeparator,
        Token::Eof,
    ]);
    let err = parse_node(&mut scanner).expect_err("Should have failed.");
    assert_eq!(err.location, 1);
    let ParserErrorDetails::BranchingError(message, errors) = err.details else {
        panic!("Invalid error.");
    };
    assert_eq!(message, "All parsers failed.");
    assert_eq!(errors.len(), 2);
    let ParserErrorDetails::ExpectedSomethingElse(expected, _) = &errors[0].details else {
        panic!("Invalid error.");
    };
    assert_eq!(expected, "timestamp");
    let ParserErrorDetails::ExpectedSomethingElse(expected, _) = &errors[1].details else {
        panic!("Invalid error.");
    };
    assert_eq!(expected, "keyword");
    assert_eq!(scanner.tell(), 1);
}

#[test]
fn the_second_branch_starts_where_the_first_started() {
    // the transaction branch takes the timestamp before it fails
    let mut scanner = TokenScanner::from_slice(&[
        Token::Timestamp(sample_timestamp()),
        ident("oops"),
    ]);
    let err = parse_a_node(&mut scanner).expect_err("Should have failed.");
    let ParserErrorDetails::BranchingError(_, errors) = err.details else {
        panic!("Invalid error.");
    };
    assert_eq!(errors[0].location, 1);
    assert_eq!(errors[1].location, 0);
    let ParserErrorDetails::ExpectedSomethingElse(_, found) = &errors[1].details else {
        panic!("Invalid error.");
    };
    assert_eq!(found, &Token::Timestamp(sample_timestamp()));
    let mut scanner = TokenScanner::from_slice(&two_postings());
    assert!(matches!(
        parse_transaction(&mut scanner),
        Ok(ast::ASTNode::Transaction(_))
    ));
    let mut scanner = TokenScanner::from_slice(&two_postings());
    parse_set_attribute(&mut scanner).expect_err("Should have failed.");
}

#[test]
fn token_parsers_take_one_token() {
    let ts = sample_timestamp();
    let mut mapping = serde_yaml::Mapping::new();
    mapping.insert("k".into(), "v".into());
    let mut scanner = TokenScanner::from_slice(&[
        Token::Timestamp(ts),
        Token::Amount(-3),
        Token::AccountSeparator,
        Token::PostingSeparator,
        Token::LineSeparator,
        Token::YamlMatter(mapping.clone()),
        Token::Indent,
        Token::Keyword(Keyword::SetAttribute),
    ]);
    assert_eq!(parse_timestamp(&mut scanner).expect("Failed."), ts);
    assert_eq!(parse_amount(&mut scanner).expect("Failed."), -3);
    parse_account_separator(&mut scanner).expect("Failed.");
    parse_posting_separator(&mut scanner).expect("Failed.");
    parse_line_separator(&mut scanner).expect("Failed.");
    assert_eq!(parse_yaml_matter(&mut scanner).expect("Failed."), mapping);
    parse_indent(&mut scanner).expect("Failed.");
    parse_keyword(&mut scanner, Keyword::SetAttribute).expect("Failed.");
    assert_eq!(scanner.tell(), 8);
    let err = parse_indent(&mut scanner).expect_err("Should have failed.");
    assert!(matches!(err.details, ParserErrorDetails::Incomplete));
    assert_eq!(err.location, 8);
    // the cursor moves on even where there is no token
    assert_eq!(scanner.tell(), 9);
}

#[test]
fn token_parsers_fail_at_the_position_before_the_token() {
    let mut scanner = TokenScanner::from_slice(&[Token::Indent, Token::Indent, Token::Amount(1)]);
    scanner.seek(2).expect("Failed.");
    let err = parse_timestamp(&mut scanner).expect_err("Should have failed.");
    assert_eq!(err.location, 2);
    let ParserErrorDetails::ExpectedSomethingElse(expected, found) = err.details else {
        panic!("Invalid error.");
    };
    assert_eq!(expected, "timestamp");
    assert_eq!(found, Token::Amount(1));
    assert_eq!(scanner.tell(), 3);
}

#[test]
fn the_cursor_is_a_plain_position() {
    let tokens = [ident("a"), ident("b")];
    let mut scanner = TokenScanner::from_slice(&tokens);
    assert_eq!(scanner.len(), 2);
    assert_eq!(scanner.tell(), 0);
    assert_eq!(scanner.peek(), Some(&tokens[0]));
    assert_eq!(peek_next(&scanner).expect("Failed."), &tokens[0]);
    assert_eq!(scanner.tell(), 0);
    assert_eq!(scanner.next(), Some(&tokens[0]));
    assert_eq!(scanner.tell(), 1);
    assert_eq!(get_next(&mut scanner).expect("Failed."), &tokens[1]);
    assert_eq!(scanner.tell(), 2);
    assert_eq!(scanner.peek(), None);
    let err = peek_next(&scanner).expect_err("Should have failed.");
    assert!(matches!(err.details, ParserErrorDetails::Incomplete));
    assert_eq!(err.location, 2);
    assert_eq!(scanner.tell(), 2);
    // behind the last token there is nothing to return, and the cursor moves on
    assert_eq!(scanner.next(), None);
    assert_eq!(scanner.tell(), 3);
    let err = get_next(&mut scanner).expect_err("Should have failed.");
    assert!(matches!(err.details, ParserErrorDetails::Incomplete));
    assert_eq!(err.location, 3);
    assert_eq!(scanner.tell(), 4);
    scanner.seek(0).expect("Failed.");
    assert_eq!(scanner.tell(), 0);
    scanner.advance().expect("Failed.");
    assert_eq!(scanner.tell(), 1);
    scanner.seek(2).expect("Failed.");
    scanner.advance().expect("Failed.");
    assert_eq!(scanner.tell(), 3);
    scanner.advance().expect("Failed.");
    assert_eq!(scanner.tell(), 4);
    scanner.seek(17).expect("Failed.");
    assert_eq!(scanner.tell(), 17);
    assert_eq!(scanner.peek(), None);
    scanner.seek(1).expect("Failed.");
    assert_eq!(scanner.peek(), Some(&tokens[1]));
}

#[test]
fn advance_on_no_tokens_moves_on() {
    let mut scanner = TokenScanner::from_slice(&[]);
    scanner.advance().expect("Failed.");
    assert_eq!(scanner.tell(), 1);
}

#[test]
fn parse_test_empty() {
    let result = parse_tokens(&[]).expect("Failed.");
    assert!(result.is_empty());
}

#[test]
fn test_only_comments() {
    let tokens = [
        Token::Comment("foo".to_string()),
        Token::Comment("foo".to_string()),
    ];
    let result = parse_tokens(&tokens).expect("Failed.");
    assert!(result.is_empty());
}

#[test]
fn test_transaction() {
    let ts = chrono::DateTime::parse_from_rfc3339("2026-01-01T00:00:00.000+09:00").unwrap();
    let ts = Timestamp {
        seconds: ts.timestamp(),
        nanoseconds: ts.timestamp_subsec_nanos(),
        offset_seconds: ts.offset().local_minus_utc(),
    };
    let tokens = [
        Token::Timestamp(ts),
        Token::LineSeparator,
        Token::Indent,
        Token::Identifier("asset".to_string()),
        Token::AccountSeparator,
        Token::Identifier("cce".to_string()),
        Token::AccountSeparator,
        Token::Identifier("cash".to_string()),
        Token::PostingSeparator,
        Token::Identifier("JPY".to_string()),
        Token::PostingSeparator,
        Token::Amount(1000),
        Token::LineSeparator,
        Token::Indent,
        Token::Identifier("expense".to_string()),
        Token::PostingSeparator,
        Token::Identifier("JPY".to_string()),
        Token::PostingSeparator,
        Token::Amount(1000),
        Token::LineSeparator,
    ];
    let result = parse_tokens(&tokens).expect("Failed.");
    let node = result
        .first()
        .expect("Should have parsed at least one node.");
    let ast::ASTNode::Transaction(_t) = node else {
        panic!("Should have parsed a transaction.");
    };
    assert_eq!(result.len(), 1);
}

#[test]
fn tokens_without_eof_are_parsed_to_their_end() {
    let mut tokens = vec![Token::Comment("note".to_string())];
    tokens.extend(two_postings());
    tokens.push(Token::Keyword(Keyword::SetAttribute));
    tokens.push(ident("default_commodity"));
    tokens.push(ident("JPY"));
    tokens.push(Token::LineSeparator);
    let nodes = parse_tokens(&tokens).expect("Failed.");
    assert_eq!(nodes.len(), 2);
    assert!(matches!(nodes[1], ast::ASTNode::SetAttribute(_, _)));
    // only the comments at the start are passed over
    tokens.push(Token::Comment("note".to_string()));
    let err = parse_tokens(&tokens).expect_err("Should have failed.");
    assert_eq!(err.location, 25);
    assert!(matches!(err.details, ParserErrorDetails::BranchingError(_, _)));
    let mut scanner = TokenScanner::from_slice(&tokens);
    parse_comments(&mut scanner).expect("Failed.");
    assert_eq!(scanner.tell(), 1);
}

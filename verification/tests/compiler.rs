use boki::ast;
use boki::compile::set_attribute::SetAttributeCompiler;
use boki::compile::transaction::TransactionCompiler;
use boki::compile::{
    compile, compile_node, compile_transaction, CompilationError, CompilationResult,
};
use boki::output;
use boki::tokens::Timestamp;

fn timestamp(s: &str) -> Timestamp {
    let t = chrono::DateTime::parse_from_rfc3339(s).unwrap();
    Timestamp {
        seconds: t.timestamp(),
        nanoseconds: t.timestamp_subsec_nanos(),
        offset_seconds: t.offset().local_minus_utc(),
    }
}

fn header() -> ast::TransactionHeader {
    ast::TransactionHeader {
        timestamp: timestamp("2026-01-02T03:04:05.000+09:00"),
        attributes: serde_yaml::Mapping::default(),
    }
}

fn posting(account: &str, commodity: Option<&str>, amount: Option<i64>) -> ast::Posting {
    ast::Posting {
        account: account.to_string(),
        commodity: commodity.map(|c| c.to_string()),
        amount,
    }
}

fn transaction(postings: Vec<ast::Posting>) -> ast::Transaction {
    ast::Transaction {
        header: header(),
        postings,
    }
}

fn sample_transaction() -> ast::Transaction {
    transaction(vec![
        posting("foo", Some("JPY"), Some(1000)),
        posting("bar", Some("JPY"), Some(-1000)),
    ])
}

fn message(e: CompilationError) -> String {
    match e {
        CompilationError::GeneralError(s) => s,
    }
}

fn rejected(t: ast::Transaction) -> String {
    let mut journal = output::Journal::default();
    let e = TransactionCompiler::compile(&t, &mut journal).expect_err("Should have failed.");
    assert!(journal.transactions.is_empty());
    message(e)
}

#[test]
fn test_set_default_commodity() {
    let mut journal = output::Journal::default();
    SetAttributeCompiler::compile("default_commodity", "JPY", &mut journal).expect("Failed.");

    assert_eq!(journal.header.default_commodity, "JPY");
}

#[test]
fn set_attribute_test_set_default_commodity() {
    let mut journal = output::Journal::default();
    SetAttributeCompiler::compile("default_commodity", "JPY", &mut journal).expect("Failed.");

    assert_eq!(journal.header.default_commodity, "JPY");
}

#[test]
fn set_attribute_ignores_unknown_names() {
    let mut journal = output::Journal::default();
    journal.header.default_commodity = "USD".to_string();
    SetAttributeCompiler::compile("default_account", "JPY", &mut journal).expect("Failed.");

    assert_eq!(journal.header.default_commodity, "USD");
    assert!(journal.transactions.is_empty());
}

#[test]
fn test_compile_simple() {
    let ast = vec![ast::ASTNode::Transaction(sample_transaction())];
    compile(ast).expect("Compilation failed.");
}

#[test]
fn test_compile_node_simple_transaction() {
    let node = ast::ASTNode::Transaction(sample_transaction());
    let mut journal = output::Journal::default();
    compile_node(&node, &mut journal).expect("Compilation failed.");

    assert_eq!(journal.transactions.len(), 1);
}

#[test]
fn test_compile_transaction_all_literals() {
    let t = sample_transaction();
    let mut journal = output::Journal::default();
    compile_transaction(&t, &mut journal).expect("Failed.");

    let j_t = journal.transactions.first().expect("Failed.");
    assert_eq!(j_t.header.timestamp, t.header.timestamp);
    assert_eq!(j_t.postings.len(), t.postings.len());
    for (p_out, p_in) in j_t.postings.iter().zip(t.postings.iter()) {
        assert_eq!(p_out.account, p_in.account);
        assert_eq!(p_out.commodity, p_in.commodity.clone().unwrap());
        assert_eq!(p_out.amount, p_in.amount.clone().unwrap());
    }
}

#[test]
fn test_compile_transaction_substitutes_empty_commodity_for_default() {
    let mut t = sample_transaction();
    t.postings[0].commodity = None;

    let mut journal = output::Journal::default();

    journal.header.default_commodity = "JPY".to_string();

    compile_transaction(&t, &mut journal).expect("Failed.");

    let j_t = journal.transactions.first().expect("Failed.");
    assert_eq!(j_t.postings[0].commodity, "JPY".to_string());
}

#[test]
fn test_compile_transaction_auto_balances_single_missing_amount() {
    let mut t = sample_transaction();
    t.postings[0].amount = None;

    let mut journal = output::Journal::default();

    compile_transaction(&t, &mut journal).expect("Failed.");

    let j_t = journal.transactions.first().expect("Failed.");
    assert_eq!(j_t.postings[0].amount, 1000);
}

fn compile_with(t: &ast::Transaction, journal: &mut output::Journal) -> CompilationResult<()> {
    TransactionCompiler::compile(t, journal)
}

#[test]
fn test_simple() {
    let t = sample_transaction();
    let mut journal = output::Journal::default();
    compile_with(&t, &mut journal).expect("Failed.");

    let j_t = journal.transactions.first().expect("Failed.");
    assert_eq!(j_t.header.timestamp, t.header.timestamp);
    assert_eq!(j_t.postings.len(), t.postings.len());
    for (p_out, p_in) in j_t.postings.iter().zip(t.postings.iter()) {
        assert_eq!(p_out.account, p_in.account);
        assert_eq!(p_out.commodity, p_in.commodity.clone().unwrap());
        assert_eq!(p_out.amount, p_in.amount.clone().unwrap());
    }
}

#[test]
fn test_substitutes_empty_commodity_for_default() {
    let mut t = sample_transaction();
    t.postings[0].commodity = None;
    t.postings[1].commodity = Some("JPY".to_string());

    let mut journal = output::Journal::default();

    journal.header.default_commodity = "JPY".to_string();

    compile_with(&t, &mut journal).expect("Failed.");

    let j_t = journal.transactions.first().expect("Failed.");
    assert_eq!(j_t.postings[0].commodity, "JPY".to_string());
}

#[test]
fn test_auto_balances_single_missing_amount() {
    let mut t = sample_transaction();
    t.postings[0].amount = None;

    let mut journal = output::Journal::default();

    compile_with(&t, &mut journal).expect("Failed.");

    let j_t = journal.transactions.first().expect("Failed.");
    assert_eq!(j_t.postings[0].amount, 1000);
}

#[test]
fn test_attributes_are_copied() {
    let mut t = sample_transaction();
    t.header.attributes = serde_yaml::Mapping::default();
    t.header.attributes.insert("foo".into(), "bar".into());

    let mut journal = output::Journal::default();

    compile_with(&t, &mut journal).expect("Failed.");

    let j_t = journal.transactions.first().expect("Failed.");
    let attrs = &j_t.header.attributes;
    assert!(attrs.contains_key("foo"));
    assert_eq!(attrs.get("foo").expect("Failed."), "bar");
}

#[test]
fn auto_balance_fills_the_negated_imbalance() {
    let t = transaction(vec![
        posting("foo", Some("JPY"), Some(1000)),
        posting("bar", Some("JPY"), None),
    ]);
    let mut journal = output::Journal::default();
    compile_with(&t, &mut journal).expect("Failed.");
    let postings = &journal.transactions[0].postings;
    assert_eq!(postings[0].amount, 1000);
    assert_eq!(postings[1].account, "bar");
    assert_eq!(postings[1].commodity, "JPY");
    assert_eq!(postings[1].amount, -1000);
}

#[test]
fn auto_balance_leaves_balanced_commodities_alone() {
    let t = transaction(vec![
        posting("a", Some("USD"), Some(5)),
        posting("b", Some("USD"), Some(-5)),
        posting("c", Some("JPY"), Some(300)),
        posting("d", Some("JPY"), Some(700)),
        posting("e", Some("JPY"), None),
    ]);
    let mut journal = output::Journal::default();
    compile_with(&t, &mut journal).expect("Failed.");
    let amounts: Vec<i64> = journal.transactions[0]
        .postings
        .iter()
        .map(|p| p.amount)
        .collect();
    assert_eq!(amounts, vec![5, -5, 300, 700, -1000]);
}

#[test]
fn open_amount_of_a_balanced_transaction_is_zero() {
    let t = transaction(vec![
        posting("foo", Some("JPY"), Some(1000)),
        posting("bar", Some("JPY"), Some(-1000)),
        posting("baz", Some("JPY"), None),
    ]);
    let mut journal = output::Journal::default();
    compile_with(&t, &mut journal).expect("Failed.");
    assert_eq!(journal.transactions[0].postings[2].amount, 0);
}

#[test]
fn default_commodity_fills_every_open_commodity() {
    let t = transaction(vec![
        posting("foo", None, Some(1000)),
        posting("bar", None, None),
    ]);
    let mut journal = output::Journal::default();
    journal.header.default_commodity = "JPY".to_string();
    compile_with(&t, &mut journal).expect("Failed.");
    let postings = &journal.transactions[0].postings;
    assert_eq!(postings[0].commodity, "JPY");
    assert_eq!(postings[1].commodity, "JPY");
    assert_eq!(postings[1].amount, -1000);
}

#[test]
fn explicit_postings_are_kept_and_sum_to_zero() {
    let t = transaction(vec![
        posting("a", Some("USD"), Some(7)),
        posting("b", Some("JPY"), Some(-250)),
        posting("c", Some("USD"), Some(-7)),
        posting("d", Some("JPY"), Some(250)),
    ]);
    let mut journal = output::Journal::default();
    journal.header.default_commodity = "EUR".to_string();
    compile_with(&t, &mut journal).expect("Failed.");
    let out = &journal.transactions[0].postings;
    assert_eq!(out.len(), 4);
    for (p_out, p_in) in out.iter().zip(t.postings.iter()) {
        assert_eq!(p_out.account, p_in.account);
        assert_eq!(Some(p_out.commodity.clone()), p_in.commodity);
        assert_eq!(Some(p_out.amount), p_in.amount);
    }
    for commodity in ["USD", "JPY"] {
        let sum: i64 = out
            .iter()
            .filter(|p| p.commodity == commodity)
            .map(|p| p.amount)
            .sum();
        assert_eq!(sum, 0);
    }
}

#[test]
fn rejects_no_postings() {
    assert_eq!(rejected(transaction(vec![])), "Must have 2 or more postings.");
}

#[test]
fn rejects_a_single_posting() {
    assert_eq!(
        rejected(transaction(vec![posting("foo", None, None)])),
        "Must have 2 or more postings."
    );
}

#[test]
fn rejects_net_negative_amounts() {
    assert_eq!(
        rejected(transaction(vec![
            posting("foo", None, Some(0)),
            posting("bar", None, Some(-1000)),
        ])),
        "Unbalanced transaction."
    );
}

#[test]
fn rejects_net_positive_amounts() {
    assert_eq!(
        rejected(transaction(vec![
            posting("foo", None, Some(0)),
            posting("bar", None, Some(1000)),
        ])),
        "Unbalanced transaction."
    );
}

#[test]
fn rejects_multiple_empty_amounts() {
    assert_eq!(
        rejected(transaction(vec![
            posting("foo", None, Some(1000)),
            posting("bar", None, None),
            posting("bar", None, None),
        ])),
        "Only a single posting can have an empty amount."
    );
}

#[test]
fn rejects_two_postings_that_both_omit_the_amount() {
    assert_eq!(
        rejected(transaction(vec![
            posting("foo", Some("JPY"), None),
            posting("bar", Some("JPY"), None),
        ])),
        "Only a single posting can have an empty amount."
    );
}

#[test]
fn rejects_unbalanced_commodities() {
    assert_eq!(
        rejected(transaction(vec![
            posting("foo", Some("USD"), Some(1000)),
            posting("bar", Some("JPY"), Some(-1000)),
        ])),
        "Only a single commodity can be unbalanced."
    );
}

#[test]
fn rejects_an_open_amount_in_another_commodity() {
    assert_eq!(
        rejected(transaction(vec![
            posting("foo", Some("USD"), Some(1000)),
            posting("bar", Some("JPY"), None),
        ])),
        "Empty posting commodity is different than unbalanced commodity."
    );
}

#[test]
fn rejects_an_imbalance_that_no_amount_can_offset() {
    assert_eq!(
        rejected(transaction(vec![
            posting("foo", Some("JPY"), Some(i64::MAX)),
            posting("bar", Some("JPY"), Some(i64::MAX)),
            posting("baz", Some("JPY"), None),
        ])),
        "Unbalanced transaction."
    );
}

#[test]
fn sums_do_not_wrap() {
    // The amounts sum to 2^64, which is zero in 64 bits and is not zero.
    let half = 1i64 << 62;
    assert_eq!(
        rejected(transaction(vec![
            posting("a", Some("JPY"), Some(half)),
            posting("b", Some("JPY"), Some(half)),
            posting("c", Some("JPY"), Some(half)),
            posting("d", Some("JPY"), Some(half)),
        ])),
        "Unbalanced transaction."
    );
}

#[test]
fn fills_the_smallest_amount() {
    let t = transaction(vec![
        posting("foo", Some("JPY"), Some(i64::MAX)),
        posting("bar", Some("JPY"), Some(1)),
        posting("baz", Some("JPY"), None),
    ]);
    let mut journal = output::Journal::default();
    compile_with(&t, &mut journal).expect("Failed.");
    assert_eq!(journal.transactions[0].postings[2].amount, i64::MIN);
}

#[test]
fn balances_are_listed_in_order_of_first_occurrence() {
    let postings = vec![
        output::Posting {
            account: "a".to_string(),
            commodity: "USD".to_string(),
            amount: 5,
        },
        output::Posting {
            account: "b".to_string(),
            commodity: "JPY".to_string(),
            amount: 1,
        },
        output::Posting {
            account: "c".to_string(),
            commodity: "USD".to_string(),
            amount: -5,
        },
    ];
    let balances = TransactionCompiler::compute_balances(&postings);
    assert_eq!(
        balances,
        vec![("USD".to_string(), 0i128), ("JPY".to_string(), 1i128)]
    );
    let unbalanced = TransactionCompiler::find_unbalanced_commodities(&postings);
    assert_eq!(unbalanced, vec![("JPY".to_string(), 1i128)]);
    let t = output::Transaction {
        header: output::TransactionHeader {
            timestamp: timestamp("2026-01-02T03:04:05.000+09:00"),
            attributes: serde_yaml::Mapping::default(),
        },
        postings,
    };
    let e = TransactionCompiler::ensure_transaction_is_balanced(&t).expect_err("Should fail.");
    assert_eq!(message(e), "Unbalanced transaction.");
}

#[test]
fn validate_postings_finds_the_open_amount() {
    let journal = output::Journal::default();
    let postings = vec![
        posting("foo", Some("JPY"), Some(1)),
        posting("bar", None, None),
    ];
    let (out, open) = TransactionCompiler::validate_postings(&postings, &journal).expect("Failed.");
    assert_eq!(open, Some(1));
    assert_eq!(out[1].commodity, "");
    assert_eq!(out[1].amount, 0);
}

#[test]
fn a_failing_node_leaves_the_journal_alone() {
    let mut journal = output::Journal::default();
    compile_node(
        &ast::ASTNode::SetAttribute("default_commodity".to_string(), "JPY".to_string()),
        &mut journal,
    )
    .expect("Failed.");
    compile_node(&ast::ASTNode::Transaction(sample_transaction()), &mut journal).expect("Failed.");
    let before = journal.clone();
    compile_node(&ast::ASTNode::Transaction(transaction(vec![])), &mut journal)
        .expect_err("Should have failed.");
    assert_eq!(journal, before);
}

#[test]
fn nodes_see_what_earlier_nodes_set() {
    let open = || {
        ast::ASTNode::Transaction(transaction(vec![
            posting("foo", None, Some(1)),
            posting("bar", None, Some(-1)),
        ]))
    };
    let set = |value: &str| {
        ast::ASTNode::SetAttribute("default_commodity".to_string(), value.to_string())
    };
    let journal = compile(vec![open(), set("JPY"), open(), set("USD"), open()]).expect("Failed.");
    let commodities: Vec<String> = journal
        .transactions
        .iter()
        .map(|t| t.postings[0].commodity.clone())
        .collect();
    assert_eq!(commodities, vec!["", "JPY", "USD"]);
    assert_eq!(journal.header.default_commodity, "USD");
}

#[test]
fn one_error_fails_the_whole_document() {
    let e = compile(vec![
        ast::ASTNode::Transaction(sample_transaction()),
        ast::ASTNode::Transaction(transaction(vec![])),
        ast::ASTNode::Transaction(sample_transaction()),
    ])
    .expect_err("Should have failed.");
    assert_eq!(message(e), "Must have 2 or more postings.");
}

#[test]
fn compilation_error_from_str_keeps_the_message() {
    assert_eq!(message(CompilationError::from_str("oops")), "oops");
}

#[test]
fn empty_journal_is_the_default() {
    let journal = output::Journal::default();
    assert_eq!(journal.header.default_commodity, "");
    assert!(journal.transactions.is_empty());
    let p = output::Posting::default();
    assert_eq!(p.account, "");
    assert_eq!(p.commodity, "");
    assert_eq!(p.amount, 0);
}

#[test]
fn no_postings_have_no_balances() {
    assert!(TransactionCompiler::compute_balances(&[]).is_empty());
    assert!(TransactionCompiler::find_unbalanced_commodities(&[]).is_empty());
    let postings = vec![
        output::Posting {
            account: "a".to_string(),
            commodity: "".to_string(),
            amount: 0,
        },
        output::Posting {
            account: "b".to_string(),
            commodity: "JPY".to_string(),
            amount: 0,
        },
    ];
    assert_eq!(
        TransactionCompiler::compute_balances(&postings),
        vec![("".to_string(), 0i128), ("JPY".to_string(), 0i128)]
    );
}

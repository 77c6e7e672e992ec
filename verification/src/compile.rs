//! The compiler stage: walks AST nodes in source order and grows one journal.

pub mod set_attribute;
pub mod transaction;

use crate::ast;
use crate::output;
use vstd::prelude::*;
use vstd::string::StringExecFns;

verus! {

/// Why a node could not be compiled.
#[derive(Debug)]
pub enum CompilationError {
    GeneralError(String),
}

impl View for CompilationError {
    type V = Seq<char>;

    /// The message of the error.
    open spec fn view(&self) -> Seq<char> {
        match *self {
            CompilationError::GeneralError(s) => s@,
        }
    }
}

impl CompilationError {
    /// An error with the message `s`.
    pub fn from_str(s: &str) -> (r: Self)
        ensures
            r@ == s@,
    {
        CompilationError::GeneralError(String::from_str(s))
    }
}

/// The result of a step of the compiler.
pub type CompilationResult<T> = Result<T, CompilationError>;

/// The journal after one more node, or the message of the rule that the
/// node breaks.
pub open spec fn node_model(node: ast::ASTNodeView, journal: output::JournalView) -> Result<
    output::JournalView,
    Seq<char>,
> {
    match node {
        ast::ASTNodeView::Transaction(t) => match transaction::compile_model(
            t,
            journal.default_commodity,
        ) {
            Ok(compiled) => Ok(
                output::JournalView {
                    default_commodity: journal.default_commodity,
                    transactions: journal.transactions.push(compiled),
                },
            ),
            Err(message) => Err(message),
        },
        ast::ASTNodeView::SetAttribute(name, value) => Ok(
            set_attribute::set_attribute_model(name, value, journal),
        ),
    }
}

/// The journal after all of `nodes`, taken from left to right, each seeing
/// what those before it have set; or the message of the first broken rule.
pub open spec fn nodes_model(nodes: Seq<ast::ASTNodeView>, journal: output::JournalView) -> Result<
    output::JournalView,
    Seq<char>,
>
    decreases nodes.len(),
{
    if nodes.len() == 0 {
        Ok(journal)
    } else {
        match node_model(nodes[0], journal) {
            Ok(next) => nodes_model(nodes.drop_first(), next),
            Err(message) => Err(message),
        }
    }
}

/// The journal that compilation starts from.
pub open spec fn empty_journal() -> output::JournalView {
    output::JournalView { default_commodity: Seq::empty(), transactions: Seq::empty() }
}

/// Each transaction of the journal sums to zero in every commodity.
pub open spec fn journal_is_balanced(journal: output::JournalView) -> bool {
    forall|i: int|
        0 <= i < journal.transactions.len() ==> transaction::is_balanced(
            (#[trigger] journal.transactions[i]).postings,
        )
}

/// Compiling a node keeps a balanced journal balanced.
pub proof fn lemma_node_keeps_balance(node: ast::ASTNodeView, journal: output::JournalView)
    requires
        journal_is_balanced(journal),
        node_model(node, journal) is Ok,
    ensures
        journal_is_balanced(node_model(node, journal)->Ok_0),
{
    match node {
        ast::ASTNodeView::Transaction(t) => {
            transaction::lemma_compiled_is_balanced(t, journal.default_commodity);
        },
        ast::ASTNodeView::SetAttribute(name, value) => {},
    }
}

/// Whatever compiles, every transaction of the resulting journal sums to
/// zero in every commodity.
pub proof fn lemma_nodes_keep_balance(nodes: Seq<ast::ASTNodeView>, journal: output::JournalView)
    requires
        journal_is_balanced(journal),
        nodes_model(nodes, journal) is Ok,
    ensures
        journal_is_balanced(nodes_model(nodes, journal)->Ok_0),
    decreases nodes.len(),
{
    if nodes.len() > 0 {
        lemma_node_keeps_balance(nodes[0], journal);
        lemma_nodes_keep_balance(nodes.drop_first(), node_model(nodes[0], journal)->Ok_0);
    }
}

/// After `set default_commodity`, every posting that names no commodity is
/// compiled in the commodity that was set.
pub proof fn lemma_default_commodity_is_substituted(
    commodity: Seq<char>,
    t: ast::TransactionView,
    journal: output::JournalView,
)
    requires
        nodes_model(
            seq![
                ast::ASTNodeView::SetAttribute(set_attribute::DEFAULT_COMMODITY@, commodity),
                ast::ASTNodeView::Transaction(t),
            ],
            journal,
        ) is Ok,
    ensures
        ({
            let compiled = nodes_model(
                seq![
                    ast::ASTNodeView::SetAttribute(set_attribute::DEFAULT_COMMODITY@, commodity),
                    ast::ASTNodeView::Transaction(t),
                ],
                journal,
            )->Ok_0;
            &&& compiled.default_commodity == commodity
            &&& compiled.transactions.len() == journal.transactions.len() + 1
            &&& compiled.transactions.last().postings.len() == t.postings.len()
            &&& forall|i: int|
                0 <= i < t.postings.len() && (#[trigger] t.postings[i]).commodity is None
                    ==> compiled.transactions.last().postings[i].commodity == commodity
        }),
{
    let nodes = seq![
        ast::ASTNodeView::SetAttribute(set_attribute::DEFAULT_COMMODITY@, commodity),
        ast::ASTNodeView::Transaction(t),
    ];
    let after_set = set_attribute::set_attribute_model(
        set_attribute::DEFAULT_COMMODITY@,
        commodity,
        journal,
    );
    reveal_with_fuel(nodes_model, 3);
    assert(nodes.drop_first() =~= seq![ast::ASTNodeView::Transaction(t)]);
    assert(nodes.drop_first().drop_first() =~= Seq::empty());
    assert(nodes[0] == ast::ASTNodeView::SetAttribute(set_attribute::DEFAULT_COMMODITY@, commodity));
}

/// Compiles one transaction into the journal.
pub fn compile_transaction(t: &ast::Transaction, journal: &mut output::Journal) -> (r:
    CompilationResult<()>)
    ensures
        match r {
            Ok(()) => {
                &&& transaction::compile_model(t@, old(journal)@.default_commodity) matches Ok(
                    compiled,
                )
                &&& final(journal)@.default_commodity == old(journal)@.default_commodity
                &&& final(journal)@.transactions == old(journal)@.transactions.push(compiled)
                &&& transaction::is_balanced(compiled.postings)
            },
            Err(e) => {
                &&& transaction::compile_model(t@, old(journal)@.default_commodity) == Err::<
                    output::TransactionView,
                    Seq<char>,
                >(e@)
                &&& *final(journal) == *old(journal)
            },
        },
{
    transaction::TransactionCompiler::compile(t, journal)
}

/// Compiles one node into the journal. A node that breaks a rule leaves the
/// journal as it was.
pub fn compile_node(node: &ast::ASTNode, journal: &mut output::Journal) -> (r: CompilationResult<
    (),
>)
    ensures
        match r {
            Ok(()) => node_model(node@, old(journal)@) == Ok::<output::JournalView, Seq<char>>(
                final(journal)@,
            ),
            Err(e) => node_model(node@, old(journal)@) == Err::<output::JournalView, Seq<char>>(
                e@,
            ) && *final(journal) == *old(journal),
        },
{
    match node {
        ast::ASTNode::Transaction(t) => compile_transaction(t, journal),
        ast::ASTNode::SetAttribute(name, value) => set_attribute::SetAttributeCompiler::compile(
            name.as_str(),
            value.as_str(),
            journal,
        ),
    }
}

/// Compiles a whole document: all of its nodes or nothing.
pub fn compile(nodes: Vec<ast::ASTNode>) -> (r: CompilationResult<output::Journal>)
    ensures
        match r {
            Ok(journal) => nodes_model(nodes.deep_view(), empty_journal()) == Ok::<
                output::JournalView,
                Seq<char>,
            >(journal@) && journal_is_balanced(journal@),
            Err(e) => nodes_model(nodes.deep_view(), empty_journal()) == Err::<
                output::JournalView,
                Seq<char>,
            >(e@),
        },
{
    let mut journal = output::Journal::default();
    let ghost all = nodes.deep_view();
    let mut i: usize = 0;
    proof {
        assert(all.skip(0) =~= all);
        assert(journal@ == empty_journal());
    }
    while i < nodes.len()
        invariant
            i <= nodes.len(),
            all == nodes.deep_view(),
            nodes_model(all, empty_journal()) == nodes_model(all.skip(i as int), journal@),
        decreases nodes.len() - i,
    {
        proof {
            assert(all.skip(i as int)[0] == nodes@[i as int]@);
            assert(all.skip(i as int).drop_first() =~= all.skip(i + 1));
        }
        compile_node(&nodes[i], &mut journal)?;
        i += 1;
    }
    proof {
        assert(all.skip(i as int).len() == 0);
        lemma_nodes_keep_balance(all, empty_journal());
    }
    Ok(journal)
}

} // verus!

//! The parser stage.
//!
//! This module is responsible for producing AST nodes from
//! a potentially incomplete list of tokens.
//!
//! The parser assumes that end of input is signified
//! by the presence of an Eof token. If the parser consumes
//! all tokens without seeing an Eof token, it fails with `Incomplete`.
//! The caller should catch that error and re-attempt parsing
//! when more tokens are available.

pub mod basic;
pub mod combinators;
pub mod cursor;
pub mod set_attributes;
pub mod transaction;

use crate::ast;
use crate::parse::cursor::{Outcome, Parser, ParserErrorView, ParserResult, TokenScanner};
use crate::tokens::{Token, TokenView};
use vstd::prelude::*;

verus! {

/// Comments and ends of lines are passed over, up to the first token of
/// another kind, which must exist.
pub open spec fn skip_model(tokens: Seq<TokenView>, pos: nat) -> Outcome<()>
    decreases tokens.len() - pos,
{
    if pos >= tokens.len() {
        Outcome { end: pos, result: Err(cursor::incomplete(pos)) }
    } else if tokens[pos as int] is Comment || tokens[pos as int] is LineSeparator {
        skip_model(tokens, pos + 1)
    } else {
        Outcome { end: pos, result: Ok(()) }
    }
}

/// Passes over comments and ends of lines, up to a token of another kind.
pub fn parse_initial_whitespace_and_comments(scanner: &mut TokenScanner) -> (r: ParserResult<()>)
    ensures
        final(scanner).tokens() == old(scanner).tokens(),
        final(scanner).tell() == skip_model(old(scanner).tokens(), old(scanner).tell() as nat).end,
        match r {
            Ok(()) => skip_model(old(scanner).tokens(), old(scanner).tell() as nat).result == Ok::<
                (),
                ParserErrorView,
            >(()),
            Err(e) => skip_model(old(scanner).tokens(), old(scanner).tell() as nat).result == Err::<
                (),
                ParserErrorView,
            >(e@),
        },
{
    let ghost tokens = scanner.tokens();
    let ghost start = scanner.tell() as nat;
    loop
        invariant
            scanner.tokens() == tokens,
            tokens == old(scanner).tokens(),
            start == old(scanner).tell(),
            skip_model(tokens, start) == skip_model(tokens, scanner.tell() as nat),
        decreases tokens.len() - scanner.tell(),
    {
        let skip = match cursor::peek_next(scanner) {
            Ok(Token::Comment(_)) => true,
            Ok(Token::LineSeparator) => true,
            Ok(_) => false,
            Err(e) => {
                return Err(e);
            },
        };
        if !skip {
            return Ok(());
        }
        scanner.advance()?;
    }
}

/// The two kinds of node that a document is made of.
#[derive(Clone, Copy, Debug, PartialEq, Eq, Structural)]
pub enum NodeParser {
    Transaction,
    SetAttribute,
}

/// A transaction, as a node.
pub open spec fn transaction_node_model(tokens: Seq<TokenView>, pos: nat) -> Outcome<
    ast::ASTNodeView,
> {
    let t = transaction::transaction_model(tokens, pos);
    Outcome {
        end: t.end,
        result: match t.result {
            Ok(transaction) => Ok(ast::ASTNodeView::Transaction(transaction)),
            Err(e) => Err(e),
        },
    }
}

/// A `set` directive, as a node.
pub open spec fn set_attribute_node_model(tokens: Seq<TokenView>, pos: nat) -> Outcome<
    ast::ASTNodeView,
> {
    let s = set_attributes::set_attribute_model(tokens, pos);
    Outcome {
        end: s.end,
        result: match s.result {
            Ok(pair) => Ok(ast::ASTNodeView::SetAttribute(pair.0, pair.1)),
            Err(e) => Err(e),
        },
    }
}

/// Parses a transaction as a node.
pub fn parse_transaction(scanner: &mut TokenScanner) -> (r: ParserResult<ast::ASTNode>)
    ensures
        final(scanner).tokens() == old(scanner).tokens(),
        final(scanner).tell() == transaction_node_model(old(scanner).tokens(), old(scanner).tell() as nat).end,
        match r {
            Ok(node) => transaction_node_model(old(scanner).tokens(), old(scanner).tell() as nat).result
                == Ok::<ast::ASTNodeView, ParserErrorView>(node@),
            Err(e) => transaction_node_model(old(scanner).tokens(), old(scanner).tell() as nat).result
                == Err::<ast::ASTNodeView, ParserErrorView>(e@),
        },
{
    match transaction::TransactionParser::parse(scanner) {
        Ok(t) => Ok(ast::ASTNode::Transaction(t)),
        Err(e) => Err(e),
    }
}

/// Parses a `set` directive as a node.
pub fn parse_set_attribute(scanner: &mut TokenScanner) -> (r: ParserResult<ast::ASTNode>)
    ensures
        final(scanner).tokens() == old(scanner).tokens(),
        final(scanner).tell() == set_attribute_node_model(old(scanner).tokens(), old(scanner).tell() as nat).end,
        match r {
            Ok(node) => set_attribute_node_model(old(scanner).tokens(), old(scanner).tell() as nat).result
                == Ok::<ast::ASTNodeView, ParserErrorView>(node@),
            Err(e) => set_attribute_node_model(old(scanner).tokens(), old(scanner).tell() as nat).result
                == Err::<ast::ASTNodeView, ParserErrorView>(e@),
        },
{
    match set_attributes::SetAttributeParser::new().parse(scanner) {
        Ok((name, value)) => Ok(ast::ASTNode::SetAttribute(name, value)),
        Err(e) => Err(e),
    }
}

impl Parser for NodeParser {
    type Output = ast::ASTNode;

    type OutputView = ast::ASTNodeView;

    open spec fn view_output(output: ast::ASTNode) -> ast::ASTNodeView {
        output@
    }

    open spec fn model(&self, tokens: Seq<TokenView>, pos: nat) -> Outcome<ast::ASTNodeView> {
        match *self {
            NodeParser::Transaction => transaction_node_model(tokens, pos),
            NodeParser::SetAttribute => set_attribute_node_model(tokens, pos),
        }
    }

    fn parse(&self, scanner: &mut TokenScanner) -> (r: ParserResult<ast::ASTNode>) {
        match self {
            NodeParser::Transaction => parse_transaction(scanner),
            NodeParser::SetAttribute => parse_set_attribute(scanner),
        }
    }
}

/// The alternatives of a node, in the order in which they are tried.
pub open spec fn node_parsers() -> Seq<NodeParser> {
    seq![NodeParser::Transaction, NodeParser::SetAttribute]
}

/// A node: a transaction or, failing that, a `set` directive.
pub open spec fn a_node_model(tokens: Seq<TokenView>, pos: nat) -> Outcome<ast::ASTNodeView> {
    combinators::one_of_model(node_parsers(), tokens, pos)
}

/// Parses a node: a transaction or, failing that, a `set` directive.
pub fn parse_a_node(scanner: &mut TokenScanner) -> (r: ParserResult<ast::ASTNode>)
    ensures
        final(scanner).tokens() == old(scanner).tokens(),
        cursor::parsed::<NodeParser>(final(scanner).tell(), r) == a_node_model(
            old(scanner).tokens(),
            old(scanner).tell() as nat,
        ),
{
    let parsers = [NodeParser::Transaction, NodeParser::SetAttribute];
    let alternatives = parsers.as_slice();
    proof {
        assert(alternatives@ =~= node_parsers());
    }
    let node = combinators::one_of(alternatives).parse(scanner)?;
    Ok(node)
}

/// The next node of a document: what is blank is passed over; `Eof` ends
/// the document, and there is no node; anything else must be a node.
pub open spec fn node_model(tokens: Seq<TokenView>, pos: nat) -> Outcome<Option<ast::ASTNodeView>> {
    let skipped = skip_model(tokens, pos);
    if skipped.result is Err {
        Outcome { end: skipped.end, result: Err(skipped.result->Err_0) }
    } else if skipped.end >= tokens.len() {
        Outcome { end: skipped.end, result: Err(cursor::incomplete(skipped.end)) }
    } else if tokens[skipped.end as int] is Eof {
        Outcome { end: skipped.end, result: Ok(None) }
    } else {
        let node = a_node_model(tokens, skipped.end);
        Outcome {
            end: node.end,
            result: match node.result {
                Ok(n) => Ok(Some(n)),
                Err(e) => Err(e),
            },
        }
    }
}

/// What contracts see of a node that may be absent.
pub open spec fn view_node(node: Option<ast::ASTNode>) -> Option<ast::ASTNodeView> {
    match node {
        Some(n) => Some(n@),
        None => None,
    }
}

/// The main entrypoint for the parser stage.
///
/// Reads tokens from the provided scanner, skipping through all
/// initial whitespace and comments, and attempts to parse an AST node.
/// If it encounters an Eof token before attempting a node parse, returns `None`.
pub fn parse_node(scanner: &mut TokenScanner) -> (r: ParserResult<Option<ast::ASTNode>>)
    ensures
        final(scanner).tokens() == old(scanner).tokens(),
        final(scanner).tell() == node_model(old(scanner).tokens(), old(scanner).tell() as nat).end,
        match r {
            Ok(node) => node_model(old(scanner).tokens(), old(scanner).tell() as nat).result
                == Ok::<Option<ast::ASTNodeView>, ParserErrorView>(view_node(node)),
            Err(e) => node_model(old(scanner).tokens(), old(scanner).tell() as nat).result == Err::<
                Option<ast::ASTNodeView>,
                ParserErrorView,
            >(e@),
        },
{
    parse_initial_whitespace_and_comments(scanner)?;
    let at_end = match cursor::peek_next(scanner) {
        Ok(Token::Eof) => true,
        Ok(_) => false,
        Err(e) => {
            return Err(e);
        },
    };
    if at_end {
        return Ok(None);
    }
    match parse_a_node(scanner) {
        Ok(n) => Ok(Some(n)),
        Err(e) => Err(e),
    }
}

/// Passing over what is blank keeps inside the tokens and never moves
/// back.
pub proof fn lemma_skip_bounds(tokens: Seq<TokenView>, pos: nat)
    requires
        pos <= tokens.len(),
    ensures
        pos <= skip_model(tokens, pos).end <= tokens.len(),
    decreases tokens.len() - pos,
{
    if pos < tokens.len() && (tokens[pos as int] is Comment || tokens[pos as int]
        is LineSeparator) {
        lemma_skip_bounds(tokens, pos + 1);
    }
}

/// A node takes at least one token and keeps inside the tokens.
pub proof fn lemma_node_advances(tokens: Seq<TokenView>, pos: nat)
    requires
        node_model(tokens, pos).result matches Ok(Some(_)),
    ensures
        pos < node_model(tokens, pos).end <= tokens.len(),
{
    assert(pos < tokens.len());
    lemma_skip_bounds(tokens, pos);
    let at = skip_model(tokens, pos).end;
    let ps = node_parsers();
    reveal_with_fuel(combinators::one_of_from, 3);
    assert(ps[0] == NodeParser::Transaction && ps[1] == NodeParser::SetAttribute);
    if transaction::transaction_model(tokens, at).result is Ok {
        transaction::lemma_transaction_advances(tokens, at);
    }
}

/// The nodes from `pos` on, behind those in `nodes`, up to the `Eof`
/// token; or the error of the first node that does not parse.
pub open spec fn nodes_from(tokens: Seq<TokenView>, pos: nat, nodes: Seq<ast::ASTNodeView>)
    -> Result<Seq<ast::ASTNodeView>, ParserErrorView>
    decreases tokens.len() - pos,
{
    let next = node_model(tokens, pos);
    match next.result {
        Err(e) => Err(e),
        Ok(None) => Ok(nodes),
        Ok(Some(node)) => {
            proof {
                lemma_node_advances(tokens, pos);
            }
            nodes_from(tokens, next.end, nodes.push(node))
        },
    }
}

/// The nodes of a document, given by its tokens.
pub open spec fn document_model(tokens: Seq<TokenView>) -> Result<
    Seq<ast::ASTNodeView>,
    ParserErrorView,
> {
    nodes_from(tokens, 0, Seq::empty())
}

/// Parses all nodes from the cursor on, up to the `Eof` token.
pub fn parse_nodes(scanner: &mut TokenScanner) -> (r: ParserResult<Vec<ast::ASTNode>>)
    ensures
        final(scanner).tokens() == old(scanner).tokens(),
        match r {
            Ok(nodes) => nodes_from(old(scanner).tokens(), old(scanner).tell() as nat, Seq::empty())
                == Ok::<Seq<ast::ASTNodeView>, ParserErrorView>(nodes.deep_view()),
            Err(e) => nodes_from(old(scanner).tokens(), old(scanner).tell() as nat, Seq::empty())
                == Err::<Seq<ast::ASTNodeView>, ParserErrorView>(e@),
        },
{
    let ghost tokens = scanner.tokens();
    let ghost start = scanner.tell() as nat;
    let mut nodes: Vec<ast::ASTNode> = Vec::new();
    proof {
        assert(nodes.deep_view() =~= Seq::empty());
    }
    loop
        invariant
            scanner.tokens() == tokens,
            tokens == old(scanner).tokens(),
            start == old(scanner).tell(),
            nodes_from(tokens, start, Seq::empty()) == nodes_from(
                tokens,
                scanner.tell() as nat,
                nodes.deep_view(),
            ),
        decreases tokens.len() - scanner.tell(),
    {
        let ghost pos = scanner.tell() as nat;
        let ghost before = nodes.deep_view();
        let maybe_node = parse_node(scanner)?;
        match maybe_node {
            None => {
                return Ok(nodes);
            },
            Some(node) => {
                proof {
                    lemma_node_advances(tokens, pos);
                }
                nodes.push(node);
                proof {
                    assert(nodes.deep_view() =~= before.push(node@));
                }
            },
        }
    }
}

/// The position behind the comments at `pos`.
pub open spec fn comments_model(tokens: Seq<TokenView>, pos: nat) -> nat
    decreases tokens.len() - pos,
{
    if pos < tokens.len() && tokens[pos as int] is Comment {
        comments_model(tokens, pos + 1)
    } else {
        pos
    }
}

/// The comments lie inside the tokens.
pub proof fn lemma_comments_bounds(tokens: Seq<TokenView>, pos: nat)
    requires
        pos <= tokens.len(),
    ensures
        pos <= comments_model(tokens, pos) <= tokens.len(),
    decreases tokens.len() - pos,
{
    if pos < tokens.len() && tokens[pos as int] is Comment {
        lemma_comments_bounds(tokens, pos + 1);
    }
}

/// A node that parses takes at least one token and keeps inside the
/// tokens.
pub proof fn lemma_a_node_advances(tokens: Seq<TokenView>, pos: nat)
    requires
        pos <= tokens.len(),
        a_node_model(tokens, pos).result is Ok,
    ensures
        pos < a_node_model(tokens, pos).end <= tokens.len(),
{
    let ps = node_parsers();
    reveal_with_fuel(combinators::one_of_from, 3);
    assert(ps[0] == NodeParser::Transaction && ps[1] == NodeParser::SetAttribute);
    if transaction::transaction_model(tokens, pos).result is Ok {
        transaction::lemma_transaction_advances(tokens, pos);
    }
}

/// The nodes from `pos` up to the end of the tokens, behind those in
/// `nodes`; or the error of the first node that does not parse.
pub open spec fn all_nodes_from(tokens: Seq<TokenView>, pos: nat, nodes: Seq<ast::ASTNodeView>)
    -> Result<Seq<ast::ASTNodeView>, ParserErrorView>
    decreases tokens.len() - pos,
{
    if pos >= tokens.len() {
        Ok(nodes)
    } else {
        let next = a_node_model(tokens, pos);
        match next.result {
            Err(e) => Err(e),
            Ok(node) => {
                proof {
                    lemma_a_node_advances(tokens, pos);
                }
                all_nodes_from(tokens, next.end, nodes.push(node))
            },
        }
    }
}

/// The nodes of tokens that no `Eof` token closes: the comments at their
/// start are passed over, and then node follows node up to the last token.
pub open spec fn tokens_model(tokens: Seq<TokenView>) -> Result<
    Seq<ast::ASTNodeView>,
    ParserErrorView,
> {
    all_nodes_from(tokens, comments_model(tokens, 0), Seq::empty())
}

/// Passes over the comments under the cursor.
pub fn parse_comments(scanner: &mut TokenScanner) -> (r: ParserResult<()>)
    ensures
        r is Ok,
        final(scanner).tokens() == old(scanner).tokens(),
        final(scanner).tell() == comments_model(old(scanner).tokens(), old(scanner).tell() as nat),
{
    let ghost tokens = scanner.tokens();
    let ghost start = scanner.tell() as nat;
    loop
        invariant
            scanner.tokens() == tokens,
            tokens == old(scanner).tokens(),
            start == old(scanner).tell(),
            comments_model(tokens, start) == comments_model(tokens, scanner.tell() as nat),
        ensures
            scanner.tokens() == tokens,
            scanner.tell() == comments_model(tokens, start),
        decreases tokens.len() - scanner.tell(),
    {
        let is_comment = match scanner.peek() {
            Some(t) => t.is_comment(),
            None => false,
        };
        if !is_comment {
            break ;
        }
        scanner.advance()?;
    }
    Ok(())
}

/// Parses all nodes of tokens that no `Eof` token closes.
pub fn parse_tokens(tokens: &[Token]) -> (r: ParserResult<Vec<ast::ASTNode>>)
    ensures
        match r {
            Ok(nodes) => tokens_model(tokens.deep_view()) == Ok::<
                Seq<ast::ASTNodeView>,
                ParserErrorView,
            >(nodes.deep_view()),
            Err(e) => tokens_model(tokens.deep_view()) == Err::<
                Seq<ast::ASTNodeView>,
                ParserErrorView,
            >(e@),
        },
{
    let ghost all = tokens.deep_view();
    let mut scanner = TokenScanner::from_slice(tokens);
    parse_comments(&mut scanner)?;
    let mut nodes: Vec<ast::ASTNode> = Vec::new();
    proof {
        assert(nodes.deep_view() =~= Seq::empty());
    }
    loop
        invariant
            all == tokens.deep_view(),
            scanner.tokens() == all,
            tokens_model(all) == all_nodes_from(all, scanner.tell() as nat, nodes.deep_view()),
        decreases all.len() - scanner.tell(),
    {
        let ghost pos = scanner.tell() as nat;
        let ghost before = nodes.deep_view();
        if scanner.peek().is_none() {
            return Ok(nodes);
        }
        let node = parse_a_node(&mut scanner)?;
        proof {
            lemma_a_node_advances(all, pos);
        }
        nodes.push(node);
        proof {
            assert(nodes.deep_view() =~= before.push(node@));
        }
    }
}

} // verus!

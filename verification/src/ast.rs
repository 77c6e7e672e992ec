//! What the parser hands to the compiler: nodes whose fields may still be
//! left open.

use crate::tokens::Timestamp;
use vstd::prelude::*;

verus! {

/// The first line of a transaction and its front matter.
#[derive(Clone, Debug, PartialEq)]
pub struct TransactionHeader {
    pub timestamp: Timestamp,
    pub attributes: serde_yaml::Mapping,
}

/// One leg of a transaction; its commodity and its amount may be left open.
#[derive(Clone, Debug, PartialEq)]
pub struct Posting {
    pub account: String,
    pub commodity: Option<String>,
    pub amount: Option<i64>,
}

/// A transaction as it was written.
#[derive(Clone, Debug, PartialEq)]
pub struct Transaction {
    pub header: TransactionHeader,
    pub postings: Vec<Posting>,
}

/// A node of a document.
#[derive(Clone, Debug, PartialEq)]
pub enum ASTNode {
    Transaction(Transaction),
    SetAttribute(String, String),
}

/// What contracts see of a posting.
pub struct PostingView {
    pub account: Seq<char>,
    pub commodity: Option<Seq<char>>,
    pub amount: Option<i64>,
}

/// What contracts see of a header.
pub struct TransactionHeaderView {
    pub timestamp: Timestamp,
    pub attributes: Option<serde_yaml::Mapping>,
}

/// What contracts see of a transaction.
pub struct TransactionView {
    pub header: TransactionHeaderView,
    pub postings: Seq<PostingView>,
}

/// What contracts see of a node.
pub enum ASTNodeView {
    Transaction(TransactionView),
    SetAttribute(Seq<char>, Seq<char>),
}

impl View for Posting {
    type V = PostingView;

    open spec fn view(&self) -> PostingView {
        PostingView {
            account: self.account@,
            commodity: match self.commodity {
                Some(c) => Some(c@),
                None => None,
            },
            amount: self.amount,
        }
    }
}

impl DeepView for Posting {
    type V = PostingView;

    open spec fn deep_view(&self) -> PostingView {
        self@
    }
}

impl View for TransactionHeader {
    type V = TransactionHeaderView;

    open spec fn view(&self) -> TransactionHeaderView {
        TransactionHeaderView {
            timestamp: self.timestamp,
            attributes: crate::tokens::attributes_view(self.attributes),
        }
    }
}

impl View for Transaction {
    type V = TransactionView;

    open spec fn view(&self) -> TransactionView {
        TransactionView { header: self.header@, postings: self.postings.deep_view() }
    }
}

impl DeepView for Transaction {
    type V = TransactionView;

    open spec fn deep_view(&self) -> TransactionView {
        self@
    }
}

impl View for ASTNode {
    type V = ASTNodeView;

    open spec fn view(&self) -> ASTNodeView {
        match *self {
            ASTNode::Transaction(t) => ASTNodeView::Transaction(t@),
            ASTNode::SetAttribute(name, value) => ASTNodeView::SetAttribute(name@, value@),
        }
    }
}

impl DeepView for ASTNode {
    type V = ASTNodeView;

    open spec fn deep_view(&self) -> ASTNodeView {
        self@
    }
}

} // verus!

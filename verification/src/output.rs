//! The compiled ledger: every posting has its commodity and its amount.

use crate::tokens::Timestamp;
use vstd::prelude::*;

verus! {

/// What holds for the whole journal.
#[derive(Clone, Debug, PartialEq)]
pub struct JournalHeader {
    pub default_commodity: String,
}

/// One leg of a transaction, with its commodity and its amount.
#[derive(Clone, Debug, PartialEq)]
pub struct Posting {
    pub account: String,
    pub commodity: String,
    pub amount: i64,
}

/// The instant of a transaction.
pub type TransactionTimestamp = Timestamp;

/// The instant of a transaction and its attributes.
#[derive(Clone, Debug, PartialEq)]
pub struct TransactionHeader {
    pub timestamp: TransactionTimestamp,
    pub attributes: serde_yaml::Mapping,
}

/// A transaction in which every commodity sums to zero.
#[derive(Clone, Debug, PartialEq)]
pub struct Transaction {
    pub header: TransactionHeader,
    pub postings: Vec<Posting>,
}

/// The compiled ledger.
#[derive(Clone, Debug, PartialEq)]
pub struct Journal {
    pub header: JournalHeader,
    pub transactions: Vec<Transaction>,
}

/// What contracts see of a posting.
pub struct PostingView {
    pub account: Seq<char>,
    pub commodity: Seq<char>,
    pub amount: i64,
}

/// What contracts see of a header.
pub struct TransactionHeaderView {
    pub timestamp: Timestamp,
    pub attributes: Option<serde_yaml::Mapping>,
}

/// What contracts see of a transaction.
pub struct TransactionView {
    pub header: TransactionHeaderView,
    pub postings: Seq<PostingView>,
}

/// What contracts see of a journal.
pub struct JournalView {
    pub default_commodity: Seq<char>,
    pub transactions: Seq<TransactionView>,
}

impl View for Posting {
    type V = PostingView;

    open spec fn view(&self) -> PostingView {
        PostingView { account: self.account@, commodity: self.commodity@, amount: self.amount }
    }
}

impl DeepView for Posting {
    type V = PostingView;

    open spec fn deep_view(&self) -> PostingView {
        self@
    }
}

impl View for TransactionHeader {
    type V = TransactionHeaderView;

    open spec fn view(&self) -> TransactionHeaderView {
        TransactionHeaderView {
            timestamp: self.timestamp,
            attributes: crate::tokens::attributes_view(self.attributes),
        }
    }
}

impl View for Transaction {
    type V = TransactionView;

    open spec fn view(&self) -> TransactionView {
        TransactionView { header: self.header@, postings: self.postings.deep_view() }
    }
}

impl DeepView for Transaction {
    type V = TransactionView;

    open spec fn deep_view(&self) -> TransactionView {
        self@
    }
}

impl View for Journal {
    type V = JournalView;

    open spec fn view(&self) -> JournalView {
        JournalView {
            default_commodity: self.header.default_commodity@,
            transactions: self.transactions.deep_view(),
        }
    }
}

impl Default for Posting {
    fn default() -> (r: Posting)
        ensures
            r@ == (PostingView { account: Seq::empty(), commodity: Seq::empty(), amount: 0 }),
    {
        Posting { account: String::new(), commodity: String::new(), amount: 0 }
    }
}

impl Default for Journal {
    fn default() -> (r: Journal)
        ensures
            r@.default_commodity =~= Seq::empty(),
            r@.transactions =~= Seq::empty(),
    {
        Journal {
            header: JournalHeader { default_commodity: String::new() },
            transactions: Vec::new(),
        }
    }
}

} // verus!

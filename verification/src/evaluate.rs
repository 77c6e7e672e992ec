//! The whole pipeline: from the text of a journal to the compiled journal.

use crate::compile::CompilationError;
use crate::lexparse::{LexParseError, LexParseErrorContext, LexParseErrorView};
use crate::output;
use vstd::prelude::*;
use vstd::string::StringExecFns;

verus! {

/// What was being evaluated.
#[derive(Clone, Debug)]
pub enum EvaluateErrorContext {
    File(String),
}

/// Which stage failed, with its error.
#[derive(Debug)]
pub enum EvaluateErrorDetails {
    LexParseError(LexParseError),
    CompileError(CompilationError),
}

/// What contracts see of the error of a stage.
pub enum EvaluateErrorDetailsView {
    LexParseError(LexParseErrorView),
    CompileError(Seq<char>),
}

impl View for EvaluateErrorDetails {
    type V = EvaluateErrorDetailsView;

    open spec fn view(&self) -> EvaluateErrorDetailsView {
        match *self {
            EvaluateErrorDetails::LexParseError(e) => EvaluateErrorDetailsView::LexParseError(e@),
            EvaluateErrorDetails::CompileError(e) => EvaluateErrorDetailsView::CompileError(e@),
        }
    }
}

/// Why a text could not be evaluated.
#[derive(Debug)]
pub struct EvaluateError {
    pub context: EvaluateErrorContext,
    pub details: EvaluateErrorDetails,
}

impl EvaluateError {
    /// The name of the file that was being evaluated.
    pub open spec fn filename(&self) -> Seq<char> {
        match self.context {
            EvaluateErrorContext::File(name) => name@,
        }
    }
}

/// The result of an evaluation.
pub type EvaluateResult<T> = Result<T, Box<EvaluateError>>;

/// The journal that a text compiles to, or the error of the stage that
/// fails first: the text is lexed and parsed to nodes, and the nodes are
/// compiled in order into an empty journal.
pub open spec fn evaluate_model(filename: Seq<char>, content: Seq<char>) -> Result<
    output::JournalView,
    EvaluateErrorDetailsView,
> {
    match crate::lexparse::lexparse_model(content) {
        Err(details) => Err(
            EvaluateErrorDetailsView::LexParseError(
                LexParseErrorView {
                    context: crate::lexparse::LexParseErrorContextView::File { filename, content },
                    details,
                },
            ),
        ),
        Ok(nodes) => match crate::compile::nodes_model(nodes, crate::compile::empty_journal()) {
            Ok(journal) => Ok(journal),
            Err(message) => Err(EvaluateErrorDetailsView::CompileError(message)),
        },
    }
}

/// Every journal that a text evaluates to is balanced: each of its
/// transactions sums to zero in every commodity.
pub proof fn lemma_evaluated_is_balanced(filename: Seq<char>, content: Seq<char>)
    requires
        evaluate_model(filename, content) is Ok,
    ensures
        crate::compile::journal_is_balanced(evaluate_model(filename, content)->Ok_0),
{
    let nodes = crate::lexparse::lexparse_model(content)->Ok_0;
    crate::compile::lemma_nodes_keep_balance(nodes, crate::compile::empty_journal());
}

/// Evaluates the text `content` of the file `filename`: all of it or
/// nothing.
pub fn evaluate_source(filename: &str, content: &str) -> (r: EvaluateResult<output::Journal>)
    ensures
        match r {
            Ok(journal) => evaluate_model(filename@, content@) == Ok::<
                output::JournalView,
                EvaluateErrorDetailsView,
            >(journal@) && crate::compile::journal_is_balanced(journal@),
            Err(e) => e.filename() == filename@ && evaluate_model(filename@, content@) == Err::<
                output::JournalView,
                EvaluateErrorDetailsView,
            >(e.details@),
        },
{
    let context = LexParseErrorContext::File {
        filename: String::from_str(filename),
        content: String::from_str(content),
    };
    let nodes = match crate::lexparse::lexparse(context) {
        Ok(nodes) => nodes,
        Err(e) => {
            return Err(
                Box::new(
                    EvaluateError {
                        context: EvaluateErrorContext::File(String::from_str(filename)),
                        details: EvaluateErrorDetails::LexParseError(*e),
                    },
                ),
            );
        },
    };
    match crate::compile::compile(nodes) {
        Ok(journal) => Ok(journal),
        Err(e) => Err(
            Box::new(
                EvaluateError {
                    context: EvaluateErrorContext::File(String::from_str(filename)),
                    details: EvaluateErrorDetails::CompileError(e),
                },
            ),
        ),
    }
}

} // verus!

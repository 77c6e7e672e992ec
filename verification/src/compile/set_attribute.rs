//! The `set` directive: document-level configuration.

use crate::compile::CompilationResult;
use crate::output;
use vstd::prelude::*;
use vstd::string::StringExecFns;

verus! {

/// The one attribute the compiler knows.
pub const DEFAULT_COMMODITY: &'static str = "default_commodity";

/// The journal after `set name value`: `default_commodity` replaces the
/// default commodity, any other name leaves the journal as it is.
pub open spec fn set_attribute_model(
    name: Seq<char>,
    value: Seq<char>,
    journal: output::JournalView,
) -> output::JournalView {
    if name == DEFAULT_COMMODITY@ {
        output::JournalView { default_commodity: value, transactions: journal.transactions }
    } else {
        journal
    }
}

/// The compiler of `set` directives.
pub struct SetAttributeCompiler;

impl SetAttributeCompiler {
    /// Applies `set name value` to the journal. It never fails.
    pub fn compile(name: &str, value: &str, journal: &mut output::Journal) -> (r:
        CompilationResult<()>)
        ensures
            r is Ok,
            final(journal)@ == set_attribute_model(name@, value@, old(journal)@),
            final(journal).transactions == old(journal).transactions,
    {
        let given = String::from_str(name);
        let known = String::from_str(DEFAULT_COMMODITY);
        if given == known {
            journal.header.default_commodity = String::from_str(value);
        }
        Ok(())
    }
}

} // verus!

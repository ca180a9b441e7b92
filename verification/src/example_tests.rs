//! Checks of example programs, for hosts that ship them.

use crate::environment::{Environment, Store};
use crate::execution::{execute_once, executed, executed_store, first_results, RunModel};
use crate::expressions::{RuntimeExpression, Value};
use crate::parsers::macros::ExpansionFault;
use vstd::prelude::*;

verus! {

/// Whether the run is over and the last form of the program had the result
/// 42.
pub open spec fn answered(run: Result<RunModel, ExpansionFault>) -> bool {
    first_results(run) matches Ok(Some(results)) && results.len() > 0 && results.last()
        == Value::Number(42)
}

/// Runs the tutorial program `code` on top of `library` and says whether it
/// ran to its end within the budget with 42 as the result of its last form,
/// which is how the tutorial ends.
pub fn test_learn_x_in_y_minutes(
    code: String,
    library: Environment,
    store: &mut Store,
    budget: usize,
) -> (passed: bool)
    ensures
        passed == answered(executed(code@, library@, old(store)@, budget as nat)),
        final(store)@ == executed_store(code@, library@, old(store)@, budget as nat),
        final(store)@.extends(old(store)@),
{
    match execute_once(code, library, store, budget) {
        Ok(Some(results)) => {
            if results.len() > 0 {
                match &results[results.len() - 1] {
                    RuntimeExpression::Number(number) => *number == 42,
                    _ => false,
                }
            } else {
                false
            }
        },
        _ => false,
    }
}

} // verus!

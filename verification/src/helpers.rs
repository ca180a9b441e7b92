//! Helpers for working with results.

use crate::expressions::{lemma_models_push, models, RuntimeExpression, Value};
use vstd::prelude::*;

verus! {

/// The values without the functions and macros among them.
pub open spec fn without_functions(values: Seq<Value>) -> Seq<Value>
    decreases values.len(),
{
    if values.len() == 0 {
        Seq::empty()
    } else if values.last() is Function || values.last() is Macro {
        without_functions(values.drop_last())
    } else {
        without_functions(values.drop_last()).push(values.last())
    }
}

/// Drops the functions and macros from a list of results, and keeps the
/// rest in its order.
pub fn strip_functions(expressions: Vec<RuntimeExpression>) -> (stripped: Vec<RuntimeExpression>)
    ensures
        models(stripped@) == without_functions(models(expressions@)),
{
    let mut stripped: Vec<RuntimeExpression> = Vec::new();
    let mut i: usize = 0;
    proof {
        assert(models(stripped@) =~= Seq::empty());
        assert(expressions@.take(0).len() == 0);
    }
    while i < expressions.len()
        invariant
            i <= expressions.len(),
            models(stripped@) == without_functions(models(expressions@.take(i as int))),
        decreases expressions.len() - i,
    {
        proof {
            assert(expressions@.take(i + 1) =~= expressions@.take(i as int).push(
                expressions[i as int],
            ));
            lemma_models_push(expressions@.take(i as int), expressions[i as int]);
            assert(models(expressions@.take(i + 1)).drop_last() =~= models(
                expressions@.take(i as int),
            ));
        }
        let keep = match &expressions[i] {
            RuntimeExpression::Function(..) => false,
            RuntimeExpression::Macro(..) => false,
            _ => true,
        };
        if keep {
            let value = expressions[i].clone();
            proof {
                lemma_models_push(stripped@, value);
            }
            stripped.push(value);
        }
        i += 1;
    }
    proof {
        assert(expressions@.take(expressions.len() as int) =~= expressions@);
    }
    stripped
}

} // verus!

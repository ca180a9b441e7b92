//! The interface to a host: programs go in as text, results come out as
//! text.

use crate::environment::{Environment, Store, StoreModel};
use crate::execution::{execute, executed, RunModel};
use crate::expressions::{joined, printed_many, render_many, RuntimeExpression, Value};
use crate::parsers::macros::{ExpansionError, ExpansionFault};
use crate::persistent::Slots;
use crate::standard_library::{library_of, prepared, standard_library};
use vstd::prelude::*;

verus! {

/// Why a program has no result.
#[derive(PartialEq, Debug)]
pub enum EvaluationError {
    /// A form of the prelude could not be expanded.
    Prelude(ExpansionError),
    /// The prelude did not run to its end within the budget.
    PreludeUnfinished,
    /// A form of the program could not be expanded.
    Program(ExpansionError),
    /// The program did not run to its end within the budget.
    Unfinished,
}

/// The model of an `EvaluationError`.
pub enum EvaluationFault {
    Prelude(ExpansionFault),
    PreludeUnfinished,
    Program(ExpansionFault),
    Unfinished,
}

impl View for EvaluationError {
    type V = EvaluationFault;

    open spec fn view(&self) -> EvaluationFault {
        match *self {
            EvaluationError::Prelude(error) => EvaluationFault::Prelude(error@),
            EvaluationError::PreludeUnfinished => EvaluationFault::PreludeUnfinished,
            EvaluationError::Program(error) => EvaluationFault::Program(error@),
            EvaluationError::Unfinished => EvaluationFault::Unfinished,
        }
    }
}

/// What evaluates programs for a host.
pub trait Guest {
    /// Runs the program that the guest comes with, and says whether it ran
    /// to its end.
    fn run(&self) -> Result<(), ()>;

    /// Runs the program and returns its results as text.
    fn evaluate(&self, name: String) -> Result<String, EvaluationError>;
}

/// An evaluator with a standard library and a program of its own.
pub struct Component {
    /// The part of the standard library that is written in the language.
    pub prelude: String,
    /// The program that `run` runs.
    pub program: String,
    /// How many rounds of the scheduler the prelude may take, and how many
    /// a program.
    pub budget: usize,
}

/// The line that stands between what two executions have yielded.
pub open spec fn separator() -> Seq<char> {
    "\n#-------- Results from processes in order of completion ----------------\n"@
}

/// What each execution has yielded as text: its results, one on a line.
pub open spec fn yields_printed(yields: Seq<(Seq<Value>, Slots)>) -> Seq<Seq<char>> {
    Seq::new(yields.len(), |i: int| printed_many(yields[i].0, "\n"@))
}

/// The text of a run that is over.
pub open spec fn report(run: Result<RunModel, ExpansionFault>) -> Result<
    Seq<char>,
    EvaluationFault,
> {
    match run {
        Ok(run) => if run.active.len() == 0 {
            Ok(joined(yields_printed(run.completed), separator()))
        } else {
            Err(EvaluationFault::Unfinished)
        },
        Err(fault) => Err(EvaluationFault::Program(fault)),
    }
}

/// What `evaluate` returns for a program: the library is built in a store of
/// its own, and the program is run in it.
pub open spec fn evaluation(prelude: Seq<char>, program: Seq<char>, budget: nat) -> Result<
    Seq<char>,
    EvaluationFault,
> {
    let library = prepared(prelude, StoreModel::empty(), budget);
    match library_of(library) {
        Ok(Some(environment)) => report(
            executed(program, environment, library->Ok_0.store, budget),
        ),
        Ok(None) => Err(EvaluationFault::PreludeUnfinished),
        Err(fault) => Err(EvaluationFault::Prelude(fault)),
    }
}

/// The model of what `evaluate` returns.
pub open spec fn text_model(outcome: Result<String, EvaluationError>) -> Result<
    Seq<char>,
    EvaluationFault,
> {
    match outcome {
        Ok(text) => Ok(text@),
        Err(error) => Err(error@),
    }
}

/// What the executions of a run have yielded as text: the results of each,
/// one on a line, and a separating line between two executions.
pub fn print_yields(yields: &Vec<(Vec<RuntimeExpression>, Environment)>) -> (text: String)
    ensures
        text@ == joined(
            yields_printed(crate::execution::yield_models(yields@)),
            separator(),
        ),
{
    let ghost all = yields_printed(crate::execution::yield_models(yields@));
    let mut text = String::new();
    let mut i: usize = 0;
    proof {
        assert(all.take(0) =~= Seq::empty());
    }
    while i < yields.len()
        invariant
            i <= yields.len(),
            all == yields_printed(crate::execution::yield_models(yields@)),
            text@ == joined(all.take(i as int), separator()),
        decreases yields.len() - i,
    {
        let part = render_many(&yields[i].0, "\n");
        proof {
            let after = all.take(i + 1);
            assert(after.drop_last() =~= all.take(i as int));
            assert(after.last() == part@);
            if i == 0 {
                assert(text@ + part@ =~= joined(after, separator()));
            } else {
                assert(text@ + separator() + part@ =~= joined(after, separator()));
            }
        }
        if i > 0 {
            text.append(
                "\n#-------- Results from processes in order of completion ----------------\n",
            );
        }
        text.append(part.as_str());
        i += 1;
    }
    proof {
        assert(all.take(yields.len() as int) =~= all);
    }
    text
}

impl Guest for Component {
    /// Runs the component's own program on top of the standard library, and
    /// succeeds where `evaluate` has a result for it.
    fn run(&self) -> (outcome: Result<(), ()>)
        ensures
            outcome is Ok <==> evaluation(self.prelude@, self.program@, self.budget as nat) is Ok,
    {
        match self.evaluate(self.program.clone()) {
            Ok(_) => Ok(()),
            Err(_) => Err(()),
        }
    }

    /// Runs the program on top of the standard library and returns the
    /// results of its forms, one on a line; where the program spawned
    /// processes, the results of each follow in the order in which they
    /// completed, with a separating line between them. What the program
    /// logged is not part of the text.
    fn evaluate(&self, name: String) -> (outcome: Result<String, EvaluationError>)
        ensures
            text_model(outcome) == evaluation(self.prelude@, name@, self.budget as nat),
    {
        let mut store = Store::new();
        proof {
            crate::standard_library::lemma_prepared_store_is_the_store_of_the_run(
                self.prelude@,
                store@,
                self.budget as nat,
            );
        }
        match standard_library(self.prelude.as_str(), &mut store, self.budget) {
            Ok(Some(library)) => match execute(name, library, &mut store, self.budget) {
                Ok(run) => {
                    if run.is_done() {
                        Ok(print_yields(&run.completed))
                    } else {
                        Err(EvaluationError::Unfinished)
                    }
                },
                Err(error) => Err(EvaluationError::Program(error)),
            },
            Ok(None) => Err(EvaluationError::PreludeUnfinished),
            Err(error) => Err(EvaluationError::Prelude(error)),
        }
    }
}

} // verus!

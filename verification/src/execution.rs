//! The top-level driver: runs the forms of a program one after the other and
//! threads the environment from each to the next.
//!
//! A form is expanded only when its turn has come, in the environment that
//! the forms before it have left, so that a macro can be used right after the
//! form that defines it. A running program is an `Execution`; like a process
//! it is advanced step by step, and what it spawns runs beside it.

use crate::environment::{
    fits, lemma_extends_in_two, lookup, Environment, Store, StoreModel,
};
use crate::eval::{eval, evaluated};
use crate::expressions::{
    is_comment, lemma_models_push, lemma_syntaxes_push, models, syntaxes, LexicalExpression,
    RuntimeExpression, Syntax, Value,
};
use crate::parsers::macros::{expand_at, expansion, ExpansionError, ExpansionFault};
use crate::parsers::nana::{forms_at, program};
use crate::persistent::Slots;
use crate::process::{
    process_models, run_alone, stepped, Process, ProcessModel, Stepable, StepableModel,
};
use crate::queue::{list_of, queue_of};
use vstd::prelude::*;

verus! {

/// A program that is being run.
#[derive(PartialEq, Debug)]
pub enum Execution {
    /// The execution to go on with, and executions to run beside it.
    Spawn(Box<Execution>, Vec<Execution>),
    /// The forms that are left, the environment that the forms before them
    /// have left, and their results. The next form is to be expanded and
    /// evaluated.
    Expanding(Vec<LexicalExpression>, Environment, Vec<RuntimeExpression>),
    /// The same, and the evaluation of a form that is under way.
    Evaluating(Vec<LexicalExpression>, Environment, Vec<RuntimeExpression>, Stepable),
    /// The result of each form, in the order of the forms, and the
    /// environment with all that they defined.
    Complete(Vec<RuntimeExpression>, Environment),
}

/// The model of an `Execution`.
pub enum ExecutionModel {
    Spawn(Box<ExecutionModel>, Seq<ExecutionModel>),
    Expanding(Seq<Syntax>, Slots, Seq<Value>),
    Evaluating(Seq<Syntax>, Slots, Seq<Value>, StepableModel),
    Complete(Seq<Value>, Slots),
}

/// The models of a sequence of executions.
pub open spec fn execution_models(executions: Seq<Execution>) -> Seq<ExecutionModel>
    decreases executions,
{
    Seq::new(
        executions.len(),
        |i: int|
            if 0 <= i < executions.len() {
                executions[i].model()
            } else {
                arbitrary()
            },
    )
}

impl Execution {
    /// The mathematical model of the value.
    pub open spec fn model(self) -> ExecutionModel
        decreases self,
    {
        match self {
            Execution::Spawn(rest, spawned) => ExecutionModel::Spawn(
                Box::new(rest.model()),
                execution_models(spawned@),
            ),
            Execution::Expanding(work, environment, results) => ExecutionModel::Expanding(
                syntaxes(work@),
                environment@,
                models(results@),
            ),
            Execution::Evaluating(work, environment, results, stepable) => {
                ExecutionModel::Evaluating(
                    syntaxes(work@),
                    environment@,
                    models(results@),
                    stepable@,
                )
            },
            Execution::Complete(results, environment) => ExecutionModel::Complete(
                models(results@),
                environment@,
            ),
        }
    }
}

impl View for Execution {
    type V = ExecutionModel;

    open spec fn view(&self) -> ExecutionModel {
        self.model()
    }
}

/// The execution that watches a spawned process: it has no forms of its own,
/// and completes with the result of the process as its only result.
pub open spec fn watching(process: ProcessModel, environment: Slots) -> ExecutionModel {
    ExecutionModel::Evaluating(
        Seq::empty(),
        environment,
        Seq::empty(),
        StepableModel::Deferred(Box::new(process)),
    )
}

/// One watching execution for each process.
pub open spec fn watching_each(processes: Seq<ProcessModel>, environment: Slots) -> Seq<
    ExecutionModel,
> {
    Seq::new(processes.len(), |i: int| watching(processes[i], environment))
}

/// What an execution does with the process that evaluates its current form.
/// A result is recorded, and the next form has its turn; the result of a
/// definition is the value that it bound, and the name is bound to it for
/// the forms that follow. A process that is not complete is waited for. What
/// the process spawned runs beside the execution, each process watched by an
/// execution of its own.
pub open spec fn awaited(
    work: Seq<Syntax>,
    environment: Slots,
    results: Seq<Value>,
    process: ProcessModel,
    store: StoreModel,
) -> (ExecutionModel, StoreModel)
    decreases process,
{
    match process {
        ProcessModel::Complete(result) => match result {
            Value::Definition(name, value) => (
                ExecutionModel::Expanding(
                    work,
                    environment.insert(name, store.cells.len() as usize),
                    results.push(*value),
                ),
                store.allocate(Some(*value)),
            ),
            _ => (ExecutionModel::Expanding(work, environment, results.push(result)), store),
        },
        ProcessModel::Running(stepable) => (
            ExecutionModel::Evaluating(work, environment, results, stepable),
            store,
        ),
        ProcessModel::Spawn(rest, spawned) => {
            let (go_on, cells) = awaited(work, environment, results, *rest, store);
            (ExecutionModel::Spawn(Box::new(go_on), watching_each(spawned, environment)), cells)
        },
    }
}

/// What `execute_with_definitions` does: the first form is expanded, with the
/// forms that it takes as arguments, and its evaluation begins. A comment is
/// passed over. Without forms the execution is complete.
pub open spec fn begun(
    work: Seq<Syntax>,
    environment: Slots,
    results: Seq<Value>,
    store: StoreModel,
) -> Result<(ExecutionModel, StoreModel), ExpansionFault> {
    if work.len() == 0 {
        Ok((ExecutionModel::Complete(results, environment), store))
    } else {
        match expansion(work, 0, environment, store) {
            Ok((Some(first), taken)) => {
                let (process, cells) = evaluated(first, environment, store);
                Ok(awaited(work.skip(1 + taken as int), environment, results, process, cells))
            },
            Ok((None, taken)) => Ok(
                (
                    ExecutionModel::Expanding(work.skip(1 + taken as int), environment, results),
                    store,
                ),
            ),
            Err(fault) => Err(fault),
        }
    }
}

/// What one step makes of an execution that has a form to expand or an
/// evaluation under way.
pub open spec fn advanced(execution: ExecutionModel, store: StoreModel) -> Result<
    (ExecutionModel, StoreModel),
    ExpansionFault,
> {
    match execution {
        ExecutionModel::Expanding(work, environment, results) => begun(
            work,
            environment,
            results,
            store,
        ),
        ExecutionModel::Evaluating(work, environment, results, stepable) => {
            let (process, cells) = stepped(stepable, store);
            Ok(awaited(work, environment, results, process, cells))
        },
        _ => Ok((execution, store)),
    }
}

/// The model of what a step of an execution returns.
pub open spec fn outcome_model(
    outcome: Result<Execution, ExpansionError>,
    store: StoreModel,
) -> Result<(ExecutionModel, StoreModel), ExpansionFault> {
    match outcome {
        Ok(execution) => Ok((execution@, store)),
        Err(error) => Err(error@),
    }
}

/// The models of a sequence with one more execution behind it.
proof fn lemma_execution_models_push(executions: Seq<Execution>, last: Execution)
    ensures
        execution_models(executions.push(last)) == execution_models(executions).push(last@),
{
    assert(execution_models(executions.push(last)) =~= execution_models(executions).push(last@));
}

/// The models of two sequences, one behind the other.
proof fn lemma_execution_models_append(front: Seq<Execution>, back: Seq<Execution>)
    ensures
        execution_models(front + back) == execution_models(front) + execution_models(back),
{
    assert(execution_models(front + back) =~= execution_models(front) + execution_models(back));
}

/// The models of a sequence without its first execution.
proof fn lemma_execution_models_rest(executions: Seq<Execution>)
    requires
        executions.len() > 0,
    ensures
        execution_models(executions.drop_first()) == execution_models(executions).drop_first(),
{
    assert(execution_models(executions.drop_first()) =~= execution_models(
        executions,
    ).drop_first());
}

fn watch(process: Process, environment: Environment) -> (execution: Execution)
    ensures
        execution@ == watching(process@, environment@),
{
    let work: Vec<LexicalExpression> = Vec::new();
    let results: Vec<RuntimeExpression> = Vec::new();
    let stepable = Stepable::Deferred(Box::new(process));
    proof {
        assert(syntaxes(work@) =~= Seq::empty());
        assert(models(results@) =~= Seq::empty());
        assert(stepable@ == StepableModel::Deferred(Box::new(process@)));
    }
    Execution::Evaluating(work, environment, results, stepable)
}

fn watch_each(processes: Vec<Process>, environment: &Environment) -> (executions: Vec<Execution>)
    ensures
        execution_models(executions@) == watching_each(process_models(processes@), environment@),
{
    let ghost given = processes@;
    let mut waiting = queue_of(processes);
    let mut executions: Vec<Execution> = Vec::new();
    while waiting.len() > 0
        invariant
            executions.len() + waiting.len() == given.len(),
            forall|k: int| 0 <= k < waiting.len() ==> waiting@[k] == given[executions.len() + k],
            forall|k: int|
                0 <= k < executions.len() ==> (#[trigger] executions[k])@ == watching(
                    given[k]@,
                    environment@,
                ),
        decreases waiting.len(),
    {
        match waiting.pop_front() {
            Some(process) => {
                executions.push(watch(process, environment.clone()));
            },
            None => {},
        }
    }
    proof {
        assert(execution_models(executions@) =~= watching_each(
            process_models(given),
            environment@,
        ));
    }
    executions
}

/// Goes on with an execution whose current form is being evaluated by
/// `process`.
pub fn execute_with_definitions_and_process(
    work: Vec<LexicalExpression>,
    env: Environment,
    results: Vec<RuntimeExpression>,
    process: Process,
    store: &mut Store,
) -> (execution: Execution)
    ensures
        (execution@, final(store)@) == awaited(
            syntaxes(work@),
            env@,
            models(results@),
            process@,
            old(store)@,
        ),
        final(store)@.extends(old(store)@),
    decreases process,
{
    proof {
        lemma_awaited_extends(syntaxes(work@), env@, models(results@), process@, store@);
    }
    proof {
        reveal_with_fuel(RuntimeExpression::model, 2);
    }
    let mut results = results;
    match process {
        Process::Complete(result) => match result {
            RuntimeExpression::Definition(name, value) => {
                let copy = value.duplicate();
                proof {
                    lemma_models_push(results@, copy);
                }
                results.push(copy);
                let env = env.add(name, *value, store);
                Execution::Expanding(work, env, results)
            },
            result => {
                proof {
                    lemma_models_push(results@, result);
                }
                results.push(result);
                Execution::Expanding(work, env, results)
            },
        },
        Process::Running(stepable) => Execution::Evaluating(work, env, results, stepable),
        Process::Spawn(rest, spawned) => {
            let beside = watch_each(spawned, &env);
            let go_on = execute_with_definitions_and_process(work, env, results, *rest, store);
            Execution::Spawn(Box::new(go_on), beside)
        },
    }
}

/// Begins to run the forms in `env`, with `results` as the results of the
/// forms that have been run before them.
pub fn execute_with_definitions(
    work: Vec<LexicalExpression>,
    env: Environment,
    results: Vec<RuntimeExpression>,
    store: &mut Store,
) -> (outcome: Result<Execution, ExpansionError>)
    ensures
        outcome_model(outcome, final(store)@) == begun(
            syntaxes(work@),
            env@,
            models(results@),
            old(store)@,
        ),
        outcome is Err ==> final(store)@ == old(store)@,
        final(store)@.extends(old(store)@),
{
    if work.len() == 0 {
        return Ok(Execution::Complete(results, env));
    }
    let mut work = work;
    match expand_at(&work, 0, &env, store) {
        Ok((first, next)) => {
            let ghost forms = work@;
            let rest = work.split_off(next);
            proof {
                assert(syntaxes(rest@) =~= syntaxes(forms).skip(next as int));
            }
            match first {
                Some(first) => {
                    let process = eval(first, env.clone(), store);
                    Ok(execute_with_definitions_and_process(rest, env, results, process, store))
                },
                None => Ok(Execution::Expanding(rest, env, results)),
            }
        },
        Err(error) => Err(error),
    }
}

impl Execution {
    /// Whether the execution can be stepped: it has a form to expand or an
    /// evaluation under way.
    pub open spec fn steppable(self) -> bool {
        self is Expanding || self is Evaluating
    }

    /// Whether the execution can be stepped.
    pub fn is_steppable(&self) -> (steppable: bool)
        ensures
            steppable == self.steppable(),
    {
        match self {
            Execution::Expanding(..) => true,
            Execution::Evaluating(..) => true,
            _ => false,
        }
    }

    /// Advances the execution by one step. Fails where the next form cannot
    /// be expanded. An execution that is complete cannot be stepped, and one
    /// that has spawned is taken apart by the scheduler.
    pub fn step(self, store: &mut Store) -> (outcome: Result<Execution, ExpansionError>)
        requires
            self.steppable(),
        ensures
            outcome_model(outcome, final(store)@) == advanced(self@, old(store)@),
            outcome is Err ==> final(store)@ == old(store)@,
            final(store)@.extends(old(store)@),
    {
        match self {
            Execution::Expanding(work, environment, results) => execute_with_definitions(
                work,
                environment,
                results,
                store,
            ),
            Execution::Evaluating(work, environment, results, stepable) => {
                let process = stepable.step(store);
                Ok(
                    execute_with_definitions_and_process(
                        work,
                        environment,
                        results,
                        process,
                        store,
                    ),
                )
            },
            _ => vstd::pervasive::unreached(),
        }
    }
}

/// Where a run of executions stands: what the executions that have
/// completed have yielded, in the order in which they completed, and the
/// executions that have not, in the order in which they will be served.
#[derive(PartialEq, Debug)]
pub struct Run {
    pub completed: Vec<(Vec<RuntimeExpression>, Environment)>,
    pub active: Vec<Execution>,
}

/// The model of a `Run`, together with the store.
pub struct RunModel {
    pub completed: Seq<(Seq<Value>, Slots)>,
    pub active: Seq<ExecutionModel>,
    pub store: StoreModel,
}

/// The models of what executions have yielded.
pub open spec fn yield_models(yields: Seq<(Vec<RuntimeExpression>, Environment)>) -> Seq<
    (Seq<Value>, Slots),
> {
    Seq::new(yields.len(), |i: int| (models(yields[i].0@), yields[i].1@))
}

impl Run {
    /// The model of the run, beside the store that it has left.
    pub open spec fn beside(self, store: StoreModel) -> RunModel {
        RunModel {
            completed: yield_models(self.completed@),
            active: execution_models(self.active@),
            store,
        }
    }

    /// Whether every execution has completed.
    pub fn is_done(&self) -> (done: bool)
        ensures
            done == (self.active.len() == 0),
    {
        self.active.len() == 0
    }
}

/// The model of what a run returns.
pub open spec fn run_model(outcome: Result<Run, ExpansionError>, store: StoreModel) -> Result<
    RunModel,
    ExpansionFault,
> {
    match outcome {
        Ok(run) => Ok(run.beside(store)),
        Err(error) => Err(error@),
    }
}

/// What `budget` rounds of the scheduler make of the queue of executions. A
/// round takes the execution in front. If it is complete, what it yielded is
/// recorded. If it has spawned executions, they go to the back, and behind
/// them the execution to go on with. Else it is advanced by one step and goes
/// to the back; the run fails where the step does.
pub open spec fn run(
    active: Seq<ExecutionModel>,
    completed: Seq<(Seq<Value>, Slots)>,
    store: StoreModel,
    budget: nat,
) -> Result<RunModel, ExpansionFault>
    decreases budget,
{
    if budget == 0 || active.len() == 0 {
        Ok(RunModel { completed, active, store })
    } else {
        match active[0] {
            ExecutionModel::Complete(results, environment) => run(
                active.drop_first(),
                completed.push((results, environment)),
                store,
                (budget - 1) as nat,
            ),
            ExecutionModel::Spawn(rest, spawned) => run(
                active.drop_first() + spawned + seq![*rest],
                completed,
                store,
                (budget - 1) as nat,
            ),
            _ => match advanced(active[0], store) {
                Ok((next, cells)) => run(
                    active.drop_first().push(next),
                    completed,
                    cells,
                    (budget - 1) as nat,
                ),
                Err(fault) => Err(fault),
            },
        }
    }
}

/// The store that `budget` rounds of the scheduler leave: where the run
/// fails, the store as it was when the form could not be expanded.
pub open spec fn run_store(
    active: Seq<ExecutionModel>,
    completed: Seq<(Seq<Value>, Slots)>,
    store: StoreModel,
    budget: nat,
) -> StoreModel
    decreases budget,
{
    if budget == 0 || active.len() == 0 {
        store
    } else {
        match active[0] {
            ExecutionModel::Complete(results, environment) => run_store(
                active.drop_first(),
                completed.push((results, environment)),
                store,
                (budget - 1) as nat,
            ),
            ExecutionModel::Spawn(rest, spawned) => run_store(
                active.drop_first() + spawned + seq![*rest],
                completed,
                store,
                (budget - 1) as nat,
            ),
            _ => match advanced(active[0], store) {
                Ok((next, cells)) => run_store(
                    active.drop_first().push(next),
                    completed,
                    cells,
                    (budget - 1) as nat,
                ),
                Err(_) => store,
            },
        }
    }
}

/// Where a run does not fail, the store that it leaves is the store of its
/// result.
pub proof fn lemma_run_store_is_the_store_of_the_run(
    active: Seq<ExecutionModel>,
    completed: Seq<(Seq<Value>, Slots)>,
    store: StoreModel,
    budget: nat,
)
    ensures
        run(active, completed, store, budget) matches Ok(result) ==> result.store == run_store(
            active,
            completed,
            store,
            budget,
        ),
    decreases budget,
{
    if budget == 0 || active.len() == 0 {
    } else {
        match active[0] {
            ExecutionModel::Complete(results, environment) => {
                lemma_run_store_is_the_store_of_the_run(
                    active.drop_first(),
                    completed.push((results, environment)),
                    store,
                    (budget - 1) as nat,
                );
            },
            ExecutionModel::Spawn(rest, spawned) => {
                lemma_run_store_is_the_store_of_the_run(
                    active.drop_first() + spawned + seq![*rest],
                    completed,
                    store,
                    (budget - 1) as nat,
                );
            },
            _ => match advanced(active[0], store) {
                Ok((next, cells)) => {
                    lemma_run_store_is_the_store_of_the_run(
                        active.drop_first().push(next),
                        completed,
                        cells,
                        (budget - 1) as nat,
                    );
                },
                Err(_) => {},
            },
        }
    }
}

impl Execution {
    /// Runs the executions in turn, each for one step at a time, for at most
    /// `budget` rounds. The run is over when `active` comes back empty; a run
    /// that was cut short can be taken up again from what comes back. The run
    /// fails as soon as a form cannot be expanded.
    pub fn round_robin(executions: Vec<Execution>, store: &mut Store, budget: usize) -> (outcome:
        Result<Run, ExpansionError>)
        ensures
            run_model(outcome, final(store)@) == run(
                execution_models(executions@),
                Seq::empty(),
                old(store)@,
                budget as nat,
            ),
            final(store)@ == run_store(
                execution_models(executions@),
                Seq::empty(),
                old(store)@,
                budget as nat,
            ),
            final(store)@.extends(old(store)@),
    {
        proof {
            lemma_run_store_extends(
                execution_models(executions@),
                Seq::empty(),
                store@,
                budget as nat,
            );
        }
        let mut active = queue_of(executions);
        let mut completed: Vec<(Vec<RuntimeExpression>, Environment)> = Vec::new();
        let mut left = budget;
        proof {
            assert(yield_models(completed@) =~= Seq::empty());
        }
        while left > 0 && active.len() > 0
            invariant
                run(execution_models(active@), yield_models(completed@), store@, left as nat)
                    == run(
                    execution_models(executions@),
                    Seq::empty(),
                    old(store)@,
                    budget as nat,
                ),
                run_store(
                    execution_models(active@),
                    yield_models(completed@),
                    store@,
                    left as nat,
                ) == run_store(
                    execution_models(executions@),
                    Seq::empty(),
                    old(store)@,
                    budget as nat,
                ),
            decreases left,
        {
            proof {
                reveal_with_fuel(Execution::model, 2);
            }
            let ghost waiting = active@;
            match active.pop_front() {
                None => {},
                Some(first) => {
                    proof {
                        lemma_execution_models_rest(waiting);
                    }
                    match first {
                        Execution::Complete(results, environment) => {
                            proof {
                                assert(yield_models(completed@.push((results, environment)))
                                    =~= yield_models(completed@).push(
                                    (models(results@), environment@),
                                ));
                            }
                            completed.push((results, environment));
                        },
                        Execution::Spawn(rest, spawned) => {
                            proof {
                                lemma_execution_models_append(active@, spawned@);
                                lemma_execution_models_push(active@ + spawned@, *rest);
                                assert((active@ + spawned@).push(*rest) =~= active@ + spawned@
                                    + seq![*rest]);
                                assert(execution_models(active@ + spawned@).push(rest@)
                                    =~= execution_models(active@) + execution_models(spawned@)
                                    + seq![rest@]);
                            }
                            let mut spawned = queue_of(spawned);
                            active.append(&mut spawned);
                            active.push_back(*rest);
                        },
                        running => match running.step(store) {
                            Ok(next) => {
                                proof {
                                    lemma_execution_models_push(active@, next);
                                }
                                active.push_back(next);
                            },
                            Err(error) => {
                                proof {
                                    lemma_run_store_extends(
                                        execution_models(executions@),
                                        Seq::empty(),
                                        old(store)@,
                                        budget as nat,
                                    );
                                }
                                return Err(error);
                            },
                        },
                    }
                },
            }
            left -= 1;
        }
        Ok(Run { completed, active: list_of(active) })
    }
}

/// The forms without the comments among them.
pub open spec fn uncommented(forms: Seq<Syntax>) -> Seq<Syntax>
    decreases forms.len(),
{
    if forms.len() == 0 {
        Seq::empty()
    } else if forms.last() is Comment {
        uncommented(forms.drop_last())
    } else {
        uncommented(forms.drop_last()).push(forms.last())
    }
}

/// What `execute` does: the text is read as far as it is a program, the
/// comments between its forms are dropped, and the forms are run.
pub open spec fn executed(
    code: Seq<char>,
    environment: Slots,
    store: StoreModel,
    budget: nat,
) -> Result<RunModel, ExpansionFault> {
    match begun(uncommented(forms_at(code, 0).0), environment, Seq::empty(), store) {
        Ok((execution, cells)) => run(seq![execution], Seq::empty(), cells, budget),
        Err(fault) => Err(fault),
    }
}

/// The store that `execute` leaves: where the program fails, the store as it
/// was when the form could not be expanded.
pub open spec fn executed_store(
    code: Seq<char>,
    environment: Slots,
    store: StoreModel,
    budget: nat,
) -> StoreModel {
    match begun(uncommented(forms_at(code, 0).0), environment, Seq::empty(), store) {
        Ok((execution, cells)) => run_store(seq![execution], Seq::empty(), cells, budget),
        Err(_) => store,
    }
}

/// The results of the execution that completed first, if the run is over.
pub open spec fn first_results(outcome: Result<RunModel, ExpansionFault>) -> Result<
    Option<Seq<Value>>,
    ExpansionFault,
> {
    match outcome {
        Ok(run) => if run.active.len() == 0 && run.completed.len() > 0 {
            Ok(Some(run.completed[0].0))
        } else {
            Ok(None)
        },
        Err(fault) => Err(fault),
    }
}

/// The model of results that may be missing.
pub open spec fn results_model(
    outcome: Result<Option<Vec<RuntimeExpression>>, ExpansionError>,
) -> Result<Option<Seq<Value>>, ExpansionFault> {
    match outcome {
        Ok(Some(results)) => Ok(Some(models(results@))),
        Ok(None) => Ok(None),
        Err(error) => Err(error@),
    }
}

fn strip_comments(forms: &Vec<LexicalExpression>) -> (stripped: Vec<LexicalExpression>)
    ensures
        syntaxes(stripped@) == uncommented(syntaxes(forms@)),
{
    let mut stripped: Vec<LexicalExpression> = Vec::new();
    let mut i: usize = 0;
    proof {
        assert(syntaxes(stripped@) =~= Seq::empty());
        assert(forms@.take(0).len() == 0);
    }
    while i < forms.len()
        invariant
            i <= forms.len(),
            syntaxes(stripped@) == uncommented(syntaxes(forms@.take(i as int))),
        decreases forms.len() - i,
    {
        proof {
            assert(forms@.take(i + 1) =~= forms@.take(i as int).push(forms[i as int]));
            lemma_syntaxes_push(forms@.take(i as int), forms[i as int]);
            assert(syntaxes(forms@.take(i + 1)).drop_last() =~= syntaxes(forms@.take(i as int)));
        }
        if !is_comment(&forms[i]) {
            let form = forms[i].clone();
            proof {
                lemma_syntaxes_push(stripped@, form);
            }
            stripped.push(form);
        }
        i += 1;
    }
    proof {
        assert(forms@.take(forms.len() as int) =~= forms@);
    }
    stripped
}

/// Runs the program that `code` starts with in `env`, for at most `budget`
/// rounds of the scheduler, and returns what each execution yielded: the
/// results of its forms and the environment that they left. The program
/// itself is one execution; every process that it spawns is another.
pub fn execute(code: String, env: Environment, store: &mut Store, budget: usize) -> (outcome:
    Result<Run, ExpansionError>)
    ensures
        run_model(outcome, final(store)@) == executed(code@, env@, old(store)@, budget as nat),
        final(store)@ == executed_store(code@, env@, old(store)@, budget as nat),
        final(store)@.extends(old(store)@),
        fits(env@, old(store)@) ==> fits(env@, final(store)@),
{
    proof {
        lemma_executed_store_extends(code@, env@, store@, budget as nat);
    }
    let (_, expressions) = program(code.as_str());
    let work = strip_comments(&expressions);
    let results: Vec<RuntimeExpression> = Vec::new();
    proof {
        assert(models(results@) =~= Seq::empty());
    }
    match execute_with_definitions(work, env, results, store) {
        Ok(execution) => {
            let mut executions: Vec<Execution> = Vec::new();
            executions.push(execution);
            proof {
                assert(execution_models(executions@) =~= seq![execution@]);
            }
            Execution::round_robin(executions, store, budget)
        },
        Err(error) => Err(error),
    }
}

/// Runs the program as `execute` does and returns the results of its forms,
/// provided that the run was over within the budget.
pub fn execute_once(code: String, env: Environment, store: &mut Store, budget: usize) -> (outcome:
    Result<Option<Vec<RuntimeExpression>>, ExpansionError>)
    ensures
        results_model(outcome) == first_results(
            executed(code@, env@, old(store)@, budget as nat),
        ),
        final(store)@ == executed_store(code@, env@, old(store)@, budget as nat),
        final(store)@.extends(old(store)@),
        fits(env@, old(store)@) ==> fits(env@, final(store)@),
{
    proof {
        lemma_executed_store_extends(code@, env@, store@, budget as nat);
    }
    match execute(code, env, store, budget) {
        Ok(run) => {
            let mut run = run;
            if run.active.len() == 0 && run.completed.len() > 0 {
                let (results, _) = run.completed.swap_remove(0);
                Ok(Some(results))
            } else {
                Ok(None)
            }
        },
        Err(error) => Err(error),
    }
}

/// A definition is threaded to the forms behind it: when the evaluation of
/// a form completes with a definition, the result of the form is the value
/// that was defined, and the forms behind it are run in an environment in
/// which the name has that value.
pub proof fn lemma_definition_is_threaded(
    work: Seq<Syntax>,
    environment: Slots,
    results: Seq<Value>,
    name: Seq<char>,
    value: Value,
    store: StoreModel,
)
    requires
        store.cells.len() <= usize::MAX,
    ensures
        awaited(
            work,
            environment,
            results,
            ProcessModel::Complete(Value::Definition(name, Box::new(value))),
            store,
        ).0 matches ExecutionModel::Expanding(left, after, recorded) && left == work && recorded
            == results.push(value) && lookup(
            after,
            name,
            awaited(
                work,
                environment,
                results,
                ProcessModel::Complete(Value::Definition(name, Box::new(value))),
                store,
            ).1,
        ) == Some(value),
{
}

/// Any other result is recorded as it is, and leaves the environment and the
/// store as they were.
pub proof fn lemma_other_results_change_nothing(
    work: Seq<Syntax>,
    environment: Slots,
    results: Seq<Value>,
    result: Value,
    store: StoreModel,
)
    requires
        !(result is Definition),
    ensures
        awaited(work, environment, results, ProcessModel::Complete(result), store) == (
            ExecutionModel::Expanding(work, environment, results.push(result)),
            store,
        ),
{
}

/// What at most `steps` steps make of an execution that runs alone: it is
/// stepped until it is complete or has spawned, or a form cannot be
/// expanded.
pub open spec fn run_on(execution: ExecutionModel, store: StoreModel, steps: nat) -> Result<
    (ExecutionModel, StoreModel),
    ExpansionFault,
>
    decreases steps,
{
    if steps == 0 {
        Ok((execution, store))
    } else if execution is Expanding || execution is Evaluating {
        match advanced(execution, store) {
            Ok((next, cells)) => run_on(next, cells, (steps - 1) as nat),
            Err(fault) => Err(fault),
        }
    } else {
        Ok((execution, store))
    }
}

/// An execution waits for the evaluation of its form as long as it takes:
/// where the process that evaluates the form completes when it runs alone,
/// the execution comes, after as many steps, to where it would be if the
/// process had been complete from the start.
pub proof fn lemma_execution_waits_for_its_form(
    work: Seq<Syntax>,
    environment: Slots,
    results: Seq<Value>,
    process: ProcessModel,
    store: StoreModel,
    steps: nat,
) -> (taken: nat)
    requires
        run_alone(process, store, steps).0 is Complete,
    ensures
        run_on(
            awaited(work, environment, results, process, store).0,
            awaited(work, environment, results, process, store).1,
            taken,
        ) == Ok::<(ExecutionModel, StoreModel), ExpansionFault>(
            awaited(
                work,
                environment,
                results,
                run_alone(process, store, steps).0,
                run_alone(process, store, steps).1,
            ),
        ),
    decreases steps,
{
    match process {
        ProcessModel::Complete(_) => {
            assert(run_alone(process, store, steps) == (process, store));
            0
        },
        ProcessModel::Running(stepable) => {
            let (next, cells) = stepped(stepable, store);
            lemma_execution_waits_for_its_form(
                work,
                environment,
                results,
                next,
                cells,
                (steps - 1) as nat,
            ) + 1
        },
        ProcessModel::Spawn(_, _) => {
            assert(run_alone(process, store, steps) == (process, store));
            0
        },
    }
}

/// An execution runs its forms one at a time: where the first form expands
/// to an expression whose evaluation completes when it runs alone, the
/// execution comes to stand before the forms behind those that the
/// expansion took, with the value added to its results, and, if the value is
/// a definition, with the name bound, as `awaited` says of a complete
/// process. The number of steps is returned.
pub proof fn lemma_execution_runs_a_form(
    work: Seq<Syntax>,
    environment: Slots,
    results: Seq<Value>,
    store: StoreModel,
    steps: nat,
) -> (taken: nat)
    requires
        work.len() > 0,
        expansion(work, 0, environment, store) matches Ok((Some(first), _)) && run_alone(
            evaluated(first, environment, store).0,
            evaluated(first, environment, store).1,
            steps,
        ).0 is Complete,
    ensures
        expansion(work, 0, environment, store) matches Ok((Some(first), arguments)) && run_on(
            ExecutionModel::Expanding(work, environment, results),
            store,
            taken,
        ) == Ok::<(ExecutionModel, StoreModel), ExpansionFault>(
            awaited(
                work.skip(1 + arguments as int),
                environment,
                results,
                run_alone(
                    evaluated(first, environment, store).0,
                    evaluated(first, environment, store).1,
                    steps,
                ).0,
                run_alone(
                    evaluated(first, environment, store).0,
                    evaluated(first, environment, store).1,
                    steps,
                ).1,
            ),
        ),
{
    let (first, arguments) = expansion(work, 0, environment, store)->Ok_0;
    let (process, cells) = evaluated(first->Some_0, environment, store);
    let waited = lemma_execution_waits_for_its_form(
        work.skip(1 + arguments as int),
        environment,
        results,
        process,
        cells,
        steps,
    );
    waited + 1
}

/// What an execution does with the process of its form adds at most a cell
/// to the store.
proof fn lemma_awaited_extends(
    work: Seq<Syntax>,
    environment: Slots,
    results: Seq<Value>,
    process: ProcessModel,
    store: StoreModel,
)
    ensures
        awaited(work, environment, results, process, store).1.extends(store),
    decreases process,
{
    match process {
        ProcessModel::Spawn(rest, _) => {
            lemma_awaited_extends(work, environment, results, *rest, store);
        },
        _ => {},
    }
}

/// A step of an execution adds cells to the store or fills an empty one.
pub proof fn lemma_advanced_extends(execution: ExecutionModel, store: StoreModel)
    ensures
        advanced(execution, store) matches Ok((_, after)) ==> after.extends(store),
{
    match execution {
        ExecutionModel::Expanding(work, environment, results) => {
            if work.len() > 0 {
                match expansion(work, 0, environment, store) {
                    Ok((Some(first), taken)) => {
                        crate::eval::lemma_evaluated_extends(first, environment, store);
                        let (process, cells) = evaluated(first, environment, store);
                        lemma_awaited_extends(
                            work.skip(1 + taken as int),
                            environment,
                            results,
                            process,
                            cells,
                        );
                        lemma_extends_in_two(
                            store,
                            cells,
                            awaited(
                                work.skip(1 + taken as int),
                                environment,
                                results,
                                process,
                                cells,
                            ).1,
                        );
                    },
                    _ => {},
                }
            }
        },
        ExecutionModel::Evaluating(work, environment, results, stepable) => {
            crate::process::lemma_stepped_extends(stepable, store);
            let (process, cells) = stepped(stepable, store);
            lemma_awaited_extends(work, environment, results, process, cells);
            lemma_extends_in_two(
                store,
                cells,
                awaited(work, environment, results, process, cells).1,
            );
        },
        _ => {},
    }
}

/// A run of executions adds cells to the store or fills empty ones, however
/// many rounds it runs and whether or not it fails.
pub proof fn lemma_run_store_extends(
    active: Seq<ExecutionModel>,
    completed: Seq<(Seq<Value>, Slots)>,
    store: StoreModel,
    budget: nat,
)
    ensures
        run_store(active, completed, store, budget).extends(store),
    decreases budget,
{
    if !(budget == 0 || active.len() == 0) {
        match active[0] {
            ExecutionModel::Complete(results, environment) => {
                lemma_run_store_extends(
                    active.drop_first(),
                    completed.push((results, environment)),
                    store,
                    (budget - 1) as nat,
                );
            },
            ExecutionModel::Spawn(rest, spawned) => {
                lemma_run_store_extends(
                    active.drop_first() + spawned + seq![*rest],
                    completed,
                    store,
                    (budget - 1) as nat,
                );
            },
            _ => {
                lemma_advanced_extends(active[0], store);
                match advanced(active[0], store) {
                    Ok((next, cells)) => {
                        lemma_run_store_extends(
                            active.drop_first().push(next),
                            completed,
                            cells,
                            (budget - 1) as nat,
                        );
                        lemma_extends_in_two(
                            store,
                            cells,
                            run_store(
                                active.drop_first().push(next),
                                completed,
                                cells,
                                (budget - 1) as nat,
                            ),
                        );
                    },
                    Err(_) => {},
                }
            },
        }
    }
}

/// `execute` adds cells to the store or fills empty ones.
pub proof fn lemma_executed_store_extends(
    code: Seq<char>,
    environment: Slots,
    store: StoreModel,
    budget: nat,
)
    ensures
        executed_store(code, environment, store, budget).extends(store),
{
    let work = uncommented(forms_at(code, 0).0);
    lemma_advanced_extends(ExecutionModel::Expanding(work, environment, Seq::empty()), store);
    match begun(work, environment, Seq::empty(), store) {
        Ok((execution, cells)) => {
            lemma_run_store_extends(seq![execution], Seq::empty(), cells, budget);
            lemma_extends_in_two(
                store,
                cells,
                run_store(seq![execution], Seq::empty(), cells, budget),
            );
        },
        Err(_) => {},
    }
}

} // verus!

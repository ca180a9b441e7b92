//! The trampoline: processes, the steps that advance them, and the
//! combinators that chain and sequence them.
//!
//! A process is complete, or can be advanced by one step, or reports that a
//! step has spawned further processes. What a running process does next is
//! plain data (`Stepable`), and so is what follows it (`Continuation`): a step
//! is a function from a process and the store to the next process and store.

use crate::environment::{lemma_extends_in_two, Environment, Store, StoreModel};
use crate::eval::{eval, evaluated, resumed};
use crate::expressions::{models, texts, RuntimeExpression, Value};
use crate::persistent::Slots;
use crate::queue::{list_of, queue_of};
use vstd::prelude::*;

verus! {

/// What is done with the result of a process once it completes.
#[derive(PartialEq, Debug)]
pub enum Continuation {
    /// Apply this function to the results, which come as a list.
    Apply(RuntimeExpression),
    /// Build the tuple with this tag around the results.
    Tag(RuntimeExpression),
    /// Evaluate the result in this environment.
    Evaluate(Environment),
    /// Build the function with these parameters and this environment around
    /// the results, as its body.
    Function(Vec<String>, Environment),
    /// The same for a macro.
    Macro(Vec<String>, Environment),
    /// Build the macro call of this name around the results.
    MacroCall(String),
    /// Build the definition of this name around the result.
    Definition(String),
    /// Fill the cell that this name has in this environment with the result,
    /// and build the definition.
    Provide(String, Environment),
    /// Match the result against these cases, and evaluate the body of the
    /// first that matches in this environment, extended by what it bound.
    Match(RuntimeExpression, Environment),
}

/// The model of a `Continuation`.
pub enum ContinuationModel {
    Apply(Value),
    Tag(Value),
    Evaluate(Slots),
    Function(Seq<Seq<char>>, Slots),
    Macro(Seq<Seq<char>>, Slots),
    MacroCall(Seq<char>),
    Definition(Seq<char>),
    Provide(Seq<char>, Slots),
    Match(Value, Slots),
}

impl View for Continuation {
    type V = ContinuationModel;

    open spec fn view(&self) -> ContinuationModel {
        match *self {
            Continuation::Apply(function) => ContinuationModel::Apply(function@),
            Continuation::Tag(tag) => ContinuationModel::Tag(tag@),
            Continuation::Evaluate(environment) => ContinuationModel::Evaluate(environment@),
            Continuation::Function(parameters, environment) => ContinuationModel::Function(
                texts(parameters@),
                environment@,
            ),
            Continuation::Macro(parameters, environment) => ContinuationModel::Macro(
                texts(parameters@),
                environment@,
            ),
            Continuation::MacroCall(name) => ContinuationModel::MacroCall(name@),
            Continuation::Definition(name) => ContinuationModel::Definition(name@),
            Continuation::Provide(name, environment) => ContinuationModel::Provide(
                name@,
                environment@,
            ),
            Continuation::Match(cases, environment) => ContinuationModel::Match(
                cases@,
                environment@,
            ),
        }
    }
}

/// The work that a running process does when it is stepped.
#[derive(PartialEq, Debug)]
pub enum Stepable {
    /// Become the given process.
    Deferred(Box<Process>),
    /// Evaluate the expression in the environment.
    Evaluate(RuntimeExpression, Environment),
    /// Advance the process; hand its result to the continuation.
    AndThen(Box<Process>, Continuation),
    /// Advance the first of the processes; the results gathered so far.
    Sequence(Vec<Process>, Vec<RuntimeExpression>),
    /// Advance the first process; when it is complete, drop its result and
    /// go on with the processes behind it. The last process stands for the
    /// whole sequence.
    SequenceTco(Box<Process>, Vec<Process>),
}

/// A computation that is advanced step by step.
#[derive(PartialEq, Debug)]
pub enum Process {
    /// The process to go on with, and processes to run beside it.
    Spawn(Box<Process>, Vec<Process>),
    /// Work is left to do.
    Running(Stepable),
    /// The result.
    Complete(RuntimeExpression),
}

/// The model of a `Stepable`.
pub enum StepableModel {
    Deferred(Box<ProcessModel>),
    Evaluate(Value, Slots),
    AndThen(Box<ProcessModel>, ContinuationModel),
    Sequence(Seq<ProcessModel>, Seq<Value>),
    SequenceTco(Box<ProcessModel>, Seq<ProcessModel>),
}

/// The model of a `Process`.
pub enum ProcessModel {
    Spawn(Box<ProcessModel>, Seq<ProcessModel>),
    Running(StepableModel),
    Complete(Value),
}

/// The models of a sequence of processes.
pub open spec fn process_models(processes: Seq<Process>) -> Seq<ProcessModel>
    decreases processes,
{
    Seq::new(
        processes.len(),
        |i: int|
            if 0 <= i < processes.len() {
                processes[i].model()
            } else {
                arbitrary()
            },
    )
}

impl Stepable {
    /// The mathematical model of the value.
    pub open spec fn model(self) -> StepableModel
        decreases self,
    {
        match self {
            Stepable::Deferred(process) => StepableModel::Deferred(Box::new(process.model())),
            Stepable::Evaluate(expression, environment) => StepableModel::Evaluate(
                expression@,
                environment@,
            ),
            Stepable::AndThen(process, continuation) => StepableModel::AndThen(
                Box::new(process.model()),
                continuation@,
            ),
            Stepable::Sequence(processes, results) => StepableModel::Sequence(
                process_models(processes@),
                models(results@),
            ),
            Stepable::SequenceTco(first, rest) => StepableModel::SequenceTco(
                Box::new(first.model()),
                process_models(rest@),
            ),
        }
    }
}

impl Process {
    /// The mathematical model of the value.
    pub open spec fn model(self) -> ProcessModel
        decreases self,
    {
        match self {
            Process::Spawn(continuation, spawned) => ProcessModel::Spawn(
                Box::new(continuation.model()),
                process_models(spawned@),
            ),
            Process::Running(stepable) => ProcessModel::Running(stepable.model()),
            Process::Complete(value) => ProcessModel::Complete(value@),
        }
    }
}

impl View for Stepable {
    type V = StepableModel;

    open spec fn view(&self) -> StepableModel {
        self.model()
    }
}

impl View for Process {
    type V = ProcessModel;

    open spec fn view(&self) -> ProcessModel {
        self.model()
    }
}

/// The models of a sequence with one more process behind it.
pub proof fn lemma_process_models_push(processes: Seq<Process>, last: Process)
    ensures
        process_models(processes.push(last)) == process_models(processes).push(last@),
{
    assert(process_models(processes.push(last)) =~= process_models(processes).push(last@));
}

/// The process that `and_then` makes.
pub open spec fn chained(process: ProcessModel, continuation: ContinuationModel) -> ProcessModel {
    ProcessModel::Running(StepableModel::AndThen(Box::new(process), continuation))
}

/// A sequence over the processes that has done the part of its first unit
/// of work that needs no step: a first process that is complete has given
/// its result to the results, and one that has spawned has been replaced by
/// the process to go on with, what it spawned being passed on. A first
/// process that is running stands in front as it is.
pub open spec fn sequenced(processes: Seq<ProcessModel>) -> ProcessModel {
    if processes.len() == 0 {
        ProcessModel::Complete(Value::List(Seq::empty()))
    } else {
        match processes[0] {
            ProcessModel::Complete(value) => ProcessModel::Running(
                StepableModel::Sequence(processes.drop_first(), seq![value]),
            ),
            ProcessModel::Running(_) => ProcessModel::Running(
                StepableModel::Sequence(processes, Seq::empty()),
            ),
            ProcessModel::Spawn(go_on, spawned) => ProcessModel::Spawn(
                Box::new(
                    ProcessModel::Running(
                        StepableModel::Sequence(
                            seq![*go_on] + processes.drop_first(),
                            Seq::empty(),
                        ),
                    ),
                ),
                spawned,
            ),
        }
    }
}

/// A sequence over the processes, of which only the last result counts,
/// that has done no work yet. A single process stands for itself.
pub open spec fn sequenced_tco(processes: Seq<ProcessModel>) -> ProcessModel {
    if processes.len() == 1 {
        processes[0]
    } else {
        ProcessModel::Running(
            StepableModel::SequenceTco(Box::new(processes[0]), processes.drop_first()),
        )
    }
}

impl Process {
    /// The process that runs `self` and hands its result to `and_then`.
    /// Whatever `self` spawns on the way is passed on.
    pub fn and_then(self, and_then: Continuation) -> (process: Process)
        ensures
            process@ == chained(self@, and_then@),
    {
        let stepable = Stepable::AndThen(Box::new(self), and_then);
        proof {
            assert(stepable@ == StepableModel::AndThen(Box::new(self@), and_then@));
        }
        Process::Running(stepable)
    }

    /// A sequence over the processes that has done its first unit of work
    /// but for the step of a running first process, which is left to the
    /// first step of the sequence.
    pub fn in_sequence(processes: Vec<Process>) -> (process: Process)
        ensures
            process@ == sequenced(process_models(processes@)),
    {
        proof {
            reveal_with_fuel(Process::model, 2);
        }
        let mut results: Vec<RuntimeExpression> = Vec::new();
        proof {
            assert(models(results@) =~= Seq::empty());
        }
        if processes.len() == 0 {
            let value = RuntimeExpression::List(results);
            proof {
                assert(value@ == Value::List(Seq::empty()));
            }
            return Process::Complete(value);
        }
        let running = match &processes[0] {
            Process::Running(_) => true,
            _ => false,
        };
        if running {
            return sequence(processes, results);
        }
        let mut rest = processes;
        let first = rest.remove(0);
        proof {
            assert(rest@ =~= processes@.drop_first());
            lemma_process_models_rest(processes@);
        }
        match first {
            Process::Complete(value) => {
                results.push(value);
                proof {
                    assert(models(results@) =~= seq![value@]);
                }
                sequence(rest, results)
            },
            Process::Spawn(go_on, spawned) => {
                proof {
                    lemma_process_models_front(rest@, *go_on);
                    assert(rest@.insert(0, *go_on) =~= seq![*go_on] + rest@);
                }
                rest.insert(0, *go_on);
                Process::Spawn(Box::new(sequence(rest, results)), spawned)
            },
            Process::Running(stepable) => vstd::pervasive::unreached(),
        }
    }

    /// A sequence over the processes, of which only the last result counts,
    /// that has done no work yet. A single process is returned as it is.
    pub fn in_sequence_tco(processes: Vec<Process>) -> (process: Process)
        requires
            processes.len() > 0,
        ensures
            process@ == sequenced_tco(process_models(processes@)),
    {
        let mut rest = processes;
        let first = rest.remove(0);
        if rest.len() == 0 {
            first
        } else {
            proof {
                assert(rest@ =~= processes@.drop_first());
                lemma_process_models_rest(processes@);
            }
            sequence_tco(first, rest)
        }
    }
}

/// What becomes of a process that stands before a continuation, once it has
/// been advanced: its result is handed to the continuation at once; if it is
/// not complete, it is wrapped again; what it spawned is passed on, and the
/// process to go on with is wrapped.
pub open spec fn handed_on(
    process: ProcessModel,
    continuation: ContinuationModel,
    store: StoreModel,
) -> (ProcessModel, StoreModel) {
    match process {
        ProcessModel::Complete(value) => resumed(continuation, value, store),
        ProcessModel::Running(_) => (chained(process, continuation), store),
        ProcessModel::Spawn(rest, spawned) => (
            ProcessModel::Spawn(Box::new(chained(*rest, continuation)), spawned),
            store,
        ),
    }
}

/// What one step of a running process makes of it and of the store.
///
/// - A deferred process is the next process.
/// - An evaluation becomes what `eval` makes of the expression.
/// - A chain advances the process that stands before the continuation by one
///   step, unless it is complete already, and hands on as `handed_on` says.
/// - A sequence without processes completes with the list of its results.
///   Else it looks at its first process: a complete one gives its result to
///   the results and leaves; a running one is advanced by one step and stays
///   in front; one that has spawned is replaced by the process to go on
///   with, and what it spawned is passed on.
/// - A sequence in which only the last result counts becomes its first
///   process where it has no other; else it does with its first process what
///   a sequence does, but drops the result.
pub open spec fn stepped(stepable: StepableModel, store: StoreModel) -> (ProcessModel, StoreModel)
    decreases stepable,
{
    match stepable {
        StepableModel::Deferred(process) => (*process, store),
        StepableModel::Evaluate(expression, environment) => evaluated(
            expression,
            environment,
            store,
        ),
        StepableModel::AndThen(process, continuation) => match *process {
            ProcessModel::Running(inner) => {
                let (next, cells) = stepped(inner, store);
                handed_on(next, continuation, cells)
            },
            _ => handed_on(*process, continuation, store),
        },
        StepableModel::Sequence(processes, results) => if processes.len() == 0 {
            (ProcessModel::Complete(Value::List(results)), store)
        } else {
            match processes[0] {
                ProcessModel::Complete(value) => (
                    ProcessModel::Running(
                        StepableModel::Sequence(processes.drop_first(), results.push(value)),
                    ),
                    store,
                ),
                ProcessModel::Running(inner) => {
                    let (next, cells) = stepped(inner, store);
                    (
                        ProcessModel::Running(
                            StepableModel::Sequence(seq![next] + processes.drop_first(), results),
                        ),
                        cells,
                    )
                },
                ProcessModel::Spawn(rest, spawned) => (
                    ProcessModel::Spawn(
                        Box::new(
                            ProcessModel::Running(
                                StepableModel::Sequence(
                                    seq![*rest] + processes.drop_first(),
                                    results,
                                ),
                            ),
                        ),
                        spawned,
                    ),
                    store,
                ),
            }
        },
        StepableModel::SequenceTco(first, rest) => if rest.len() == 0 {
            (*first, store)
        } else {
            match *first {
                ProcessModel::Complete(_) => (
                    ProcessModel::Running(
                        StepableModel::SequenceTco(Box::new(rest[0]), rest.drop_first()),
                    ),
                    store,
                ),
                ProcessModel::Running(inner) => {
                    let (next, cells) = stepped(inner, store);
                    (ProcessModel::Running(StepableModel::SequenceTco(Box::new(next), rest)), cells)
                },
                ProcessModel::Spawn(go_on, spawned) => (
                    ProcessModel::Spawn(
                        Box::new(ProcessModel::Running(StepableModel::SequenceTco(go_on, rest))),
                        spawned,
                    ),
                    store,
                ),
            }
        },
    }
}

/// Left identity: a complete process that stands before a continuation hands
/// its result over at the first step, so that `Complete(v).and_then(f)` steps
/// to the very process that `f` makes of `v`, with no wrapper around it.
pub proof fn lemma_and_then_left_identity(
    value: Value,
    continuation: ContinuationModel,
    store: StoreModel,
)
    ensures
        chained(ProcessModel::Complete(value), continuation) matches ProcessModel::Running(
            stepable,
        ) && stepped(stepable, store) == resumed(continuation, value, store),
{
}

/// Chaining associates: `p.and_then(f).and_then(g)` takes the steps of `p`
/// one by one and stays a chain of the same shape while `p` runs; what `p`
/// spawns is passed on; and when `p` completes, its result goes to `f` in the
/// same step, and the process that `f` makes of it stands before `g`: just
/// what `p.and_then(x => f(x).and_then(g))` does.
pub proof fn lemma_and_then_associates(
    inner: StepableModel,
    first: ContinuationModel,
    second: ContinuationModel,
    store: StoreModel,
)
    ensures
        chained(chained(ProcessModel::Running(inner), first), second) matches ProcessModel::Running(
            chain,
        ) && stepped(chain, store) == match stepped(inner, store).0 {
            ProcessModel::Complete(value) => handed_on(
                resumed(first, value, stepped(inner, store).1).0,
                second,
                resumed(first, value, stepped(inner, store).1).1,
            ),
            ProcessModel::Running(next) => (
                chained(chained(ProcessModel::Running(next), first), second),
                stepped(inner, store).1,
            ),
            ProcessModel::Spawn(rest, spawned) => (
                ProcessModel::Spawn(Box::new(chained(chained(*rest, first), second)), spawned),
                stepped(inner, store).1,
            ),
        },
{
    reveal_with_fuel(stepped, 3);
}

/// The models of a sequence with one more process in front of it.
pub proof fn lemma_process_models_front(processes: Seq<Process>, first: Process)
    ensures
        process_models(seq![first] + processes) == seq![first@] + process_models(processes),
{
    assert(process_models(seq![first] + processes) =~= seq![first@] + process_models(processes));
}

/// The models of a sequence without its first process.
proof fn lemma_process_models_rest(processes: Seq<Process>)
    requires
        processes.len() > 0,
    ensures
        process_models(processes.drop_first()) == process_models(processes).drop_first(),
{
    assert(process_models(processes.drop_first()) =~= process_models(processes).drop_first());
}

fn hand_on(process: Process, continuation: Continuation, store: &mut Store) -> (handed: Process)
    ensures
        (handed@, final(store)@) == handed_on(process@, continuation@, old(store)@),
{
    match process {
        Process::Complete(value) => continuation.resume(value, store),
        Process::Running(stepable) => Process::Running(stepable).and_then(continuation),
        Process::Spawn(rest, spawned) => {
            let wrapped = (*rest).and_then(continuation);
            Process::Spawn(Box::new(wrapped), spawned)
        },
    }
}

fn sequence(processes: Vec<Process>, results: Vec<RuntimeExpression>) -> (process: Process)
    ensures
        process@ == ProcessModel::Running(
            StepableModel::Sequence(process_models(processes@), models(results@)),
        ),
{
    let stepable = Stepable::Sequence(processes, results);
    proof {
        assert(stepable@ == StepableModel::Sequence(process_models(processes@), models(results@)));
    }
    Process::Running(stepable)
}

fn sequence_tco(first: Process, rest: Vec<Process>) -> (process: Process)
    ensures
        process@ == ProcessModel::Running(
            StepableModel::SequenceTco(Box::new(first@), process_models(rest@)),
        ),
{
    let stepable = Stepable::SequenceTco(Box::new(first), rest);
    proof {
        assert(stepable@ == StepableModel::SequenceTco(
            Box::new(first@),
            process_models(rest@),
        ));
    }
    Process::Running(stepable)
}

impl Stepable {
    /// Advances the work by one step and returns the process that is left.
    pub fn step(self, store: &mut Store) -> (process: Process)
        ensures
            (process@, final(store)@) == stepped(self@, old(store)@),
            final(store)@.extends(old(store)@),
        decreases self,
    {
        proof {
            reveal_with_fuel(Process::model, 2);
            reveal_with_fuel(Stepable::model, 2);
            lemma_stepped_extends(self@, store@);
        }
        match self {
            Stepable::Deferred(process) => *process,
            Stepable::Evaluate(expression, environment) => eval(expression, environment, store),
            Stepable::AndThen(process, continuation) => {
                let advanced = match *process {
                    Process::Running(inner) => inner.step(store),
                    other => other,
                };
                hand_on(advanced, continuation, store)
            },
            Stepable::Sequence(processes, results) => {
                let mut processes = processes;
                let mut results = results;
                if processes.len() == 0 {
                    return Process::Complete(RuntimeExpression::List(results));
                }
                let ghost waiting = processes@;
                let first = processes.remove(0);
                proof {
                    assert(processes@ =~= waiting.drop_first());
                    lemma_process_models_rest(waiting);
                }
                match first {
                    Process::Complete(value) => {
                        proof {
                            crate::expressions::lemma_models_push(results@, value);
                        }
                        results.push(value);
                        sequence(processes, results)
                    },
                    Process::Running(inner) => {
                        let next = inner.step(store);
                        proof {
                            lemma_process_models_front(processes@, next);
                            assert(processes@.insert(0, next) =~= seq![next] + processes@);
                        }
                        processes.insert(0, next);
                        sequence(processes, results)
                    },
                    Process::Spawn(rest, spawned) => {
                        proof {
                            lemma_process_models_front(processes@, *rest);
                            assert(processes@.insert(0, *rest) =~= seq![*rest] + processes@);
                        }
                        processes.insert(0, *rest);
                        Process::Spawn(Box::new(sequence(processes, results)), spawned)
                    },
                }
            },
            Stepable::SequenceTco(first, rest) => {
                let mut rest = rest;
                if rest.len() == 0 {
                    return *first;
                }
                match *first {
                    Process::Complete(_) => {
                        let ghost waiting = rest@;
                        let next = rest.remove(0);
                        proof {
                            assert(rest@ =~= waiting.drop_first());
                            lemma_process_models_rest(waiting);
                        }
                        sequence_tco(next, rest)
                    },
                    Process::Running(inner) => {
                        let next = inner.step(store);
                        sequence_tco(next, rest)
                    },
                    Process::Spawn(go_on, spawned) => Process::Spawn(
                        Box::new(sequence_tco(*go_on, rest)),
                        spawned,
                    ),
                }
            },
        }
    }
}

/// What `run_in_sequence` makes of the processes: the sequence over them
/// after its first unit of work, which is one step of the sequence. A first
/// process that is complete has given its result to the results; one that is
/// running has been stepped once; one that has spawned has been replaced by
/// the process to go on with, what it spawned being passed on. Without
/// processes the sequence is complete.
pub open spec fn began(processes: Seq<ProcessModel>, store: StoreModel) -> (
    ProcessModel,
    StoreModel,
) {
    stepped(StepableModel::Sequence(processes, Seq::empty()), store)
}

/// What `run_in_sequence_tco` makes of the processes: a single process
/// stands for itself; of more, the sequence after its first unit of work,
/// which is one step of the sequence: a first process that is complete has
/// been dropped, one that is running has been stepped once, one that has
/// spawned has been replaced by the process to go on with, what it spawned
/// being passed on.
pub open spec fn began_tco(processes: Seq<ProcessModel>, store: StoreModel) -> (
    ProcessModel,
    StoreModel,
) {
    stepped(StepableModel::SequenceTco(Box::new(processes[0]), processes.drop_first()), store)
}

impl Process {
    /// The process that runs the given processes one after the other and
    /// completes with the list of their results, in the order of the
    /// processes. The call itself is the first unit of work of the sequence,
    /// and each step after it is another: it advances the first process that
    /// is not complete by one step, or takes the result of one that is.
    pub fn run_in_sequence(processes: Vec<Process>, store: &mut Store) -> (process: Process)
        ensures
            (process@, final(store)@) == began(process_models(processes@), old(store)@),
            final(store)@.extends(old(store)@),
    {
        let results: Vec<RuntimeExpression> = Vec::new();
        let stepable = Stepable::Sequence(processes, results);
        proof {
            assert(models(results@) =~= Seq::empty());
            assert(stepable@ == StepableModel::Sequence(
                process_models(processes@),
                Seq::empty(),
            ));
        }
        stepable.step(store)
    }

    /// The process that runs the given processes one after the other and
    /// completes with the result of the last; the other results are dropped.
    /// A single process is returned as it is, so that a call in tail position
    /// adds no wrapper. With more than one process the call itself is the
    /// first unit of work of the sequence, and each step after it is
    /// another.
    pub fn run_in_sequence_tco(processes: Vec<Process>, store: &mut Store) -> (process: Process)
        requires
            processes.len() > 0,
        ensures
            (process@, final(store)@) == began_tco(process_models(processes@), old(store)@),
            final(store)@.extends(old(store)@),
    {
        let mut rest = processes;
        let first = rest.remove(0);
        let stepable = Stepable::SequenceTco(Box::new(first), rest);
        proof {
            assert(rest@ =~= processes@.drop_first());
            lemma_process_models_rest(processes@);
            assert(stepable@ == StepableModel::SequenceTco(
                Box::new(first@),
                process_models(rest@),
            ));
        }
        stepable.step(store)
    }
}

/// Where the first process is not running, the first unit of work of a
/// sequence needs no step, and `in_sequence` does all of it.
pub proof fn lemma_in_sequence_is_the_first_unit(processes: Seq<ProcessModel>, store: StoreModel)
    requires
        processes.len() > 0 ==> !(processes[0] is Running),
    ensures
        began(processes, store) == (sequenced(processes), store),
{
    if processes.len() > 0 {
        assert(Seq::<Value>::empty().push(processes[0]->Complete_0) =~= seq![
            processes[0]->Complete_0,
        ]);
    }
}

/// Where a round-robin run stands: the results of the processes that have
/// completed, in the order in which they completed, and the processes that
/// have not, in the order in which they will be served.
#[derive(PartialEq, Debug)]
pub struct Schedule {
    pub completed: Vec<RuntimeExpression>,
    pub active: Vec<Process>,
}

/// The model of a `Schedule`, together with the store.
pub struct ScheduleModel {
    pub completed: Seq<Value>,
    pub active: Seq<ProcessModel>,
    pub store: StoreModel,
}

impl Schedule {
    /// The model of the schedule, beside the store that the run has left.
    pub open spec fn beside(self, store: StoreModel) -> ScheduleModel {
        ScheduleModel {
            completed: models(self.completed@),
            active: process_models(self.active@),
            store,
        }
    }
}

/// What `budget` rounds of the scheduler make of the queue. A round takes the
/// process in front. If it is complete, its result is recorded. If it is
/// running, it is advanced by one step and goes to the back. If it has
/// spawned processes, they go to the back, and behind them the process to go
/// on with.
pub open spec fn scheduled(
    active: Seq<ProcessModel>,
    completed: Seq<Value>,
    store: StoreModel,
    budget: nat,
) -> ScheduleModel
    decreases budget,
{
    if budget == 0 || active.len() == 0 {
        ScheduleModel { completed, active, store }
    } else {
        match active[0] {
            ProcessModel::Complete(value) => scheduled(
                active.drop_first(),
                completed.push(value),
                store,
                (budget - 1) as nat,
            ),
            ProcessModel::Running(stepable) => {
                let (next, cells) = stepped(stepable, store);
                scheduled(active.drop_first().push(next), completed, cells, (budget - 1) as nat)
            },
            ProcessModel::Spawn(rest, spawned) => scheduled(
                active.drop_first() + spawned + seq![*rest],
                completed,
                store,
                (budget - 1) as nat,
            ),
        }
    }
}

/// The first result of a run that is over.
pub open spec fn first_result(schedule: ScheduleModel) -> Option<Value> {
    if schedule.active.len() == 0 && schedule.completed.len() > 0 {
        Some(schedule.completed[0])
    } else {
        None
    }
}

/// The models of two sequences, one behind the other.
proof fn lemma_process_models_append(front: Seq<Process>, back: Seq<Process>)
    ensures
        process_models(front + back) == process_models(front) + process_models(back),
{
    assert(process_models(front + back) =~= process_models(front) + process_models(back));
}

impl Schedule {
    /// Whether every process has completed.
    pub fn is_done(&self) -> (done: bool)
        ensures
            done == (self.active.len() == 0),
    {
        self.active.len() == 0
    }
}

impl Process {
    /// Runs the processes in turn, each for one step at a time, for at most
    /// `budget` rounds. The run is over when `active` comes back empty; a run
    /// that was cut short can be taken up again from what comes back.
    pub fn round_robin(processes: Vec<Process>, store: &mut Store, budget: usize) -> (schedule:
        Schedule)
        ensures
            schedule.beside(final(store)@) == scheduled(
                process_models(processes@),
                Seq::empty(),
                old(store)@,
                budget as nat,
            ),
            final(store)@.extends(old(store)@),
    {
        proof {
            lemma_scheduled_extends(
                process_models(processes@),
                Seq::empty(),
                store@,
                budget as nat,
            );
        }
        let mut active = queue_of(processes);
        let mut completed: Vec<RuntimeExpression> = Vec::new();
        let mut left = budget;
        proof {
            assert(models(completed@) =~= Seq::empty());
        }
        while left > 0 && active.len() > 0
            invariant
                scheduled(process_models(active@), models(completed@), store@, left as nat)
                    == scheduled(
                    process_models(processes@),
                    Seq::empty(),
                    old(store)@,
                    budget as nat,
                ),
            decreases left,
        {
            proof {
                reveal_with_fuel(Process::model, 2);
            }
            let ghost waiting = active@;
            match active.pop_front() {
                None => {},
                Some(first) => {
                    proof {
                        lemma_process_models_rest(waiting);
                    }
                    match first {
                        Process::Complete(value) => {
                            proof {
                                crate::expressions::lemma_models_push(completed@, value);
                            }
                            completed.push(value);
                        },
                        Process::Running(stepable) => {
                            let next = stepable.step(store);
                            proof {
                                lemma_process_models_push(active@, next);
                            }
                            active.push_back(next);
                        },
                        Process::Spawn(rest, spawned) => {
                            proof {
                                lemma_process_models_append(active@, spawned@);
                                lemma_process_models_push(active@ + spawned@, *rest);
                                assert((active@ + spawned@).push(*rest) =~= active@ + spawned@
                                    + seq![*rest]);
                                assert(process_models(active@ + spawned@).push(rest@)
                                    =~= process_models(active@) + process_models(spawned@)
                                    + seq![rest@]);
                            }
                            let mut spawned = queue_of(spawned);
                            active.append(&mut spawned);
                            active.push_back(*rest);
                        },
                    }
                },
            }
            left -= 1;
        }
        Schedule { completed, active: list_of(active) }
    }

    /// Runs the process, and whatever it spawns, for at most `budget` rounds.
    pub fn run_until_complete(self, store: &mut Store, budget: usize) -> (schedule: Schedule)
        ensures
            schedule.beside(final(store)@) == scheduled(
                seq![self@],
                Seq::empty(),
                old(store)@,
                budget as nat,
            ),
            final(store)@.extends(old(store)@),
    {
        let mut processes: Vec<Process> = Vec::new();
        processes.push(self);
        proof {
            assert(process_models(processes@) =~= seq![self@]);
        }
        Process::round_robin(processes, store, budget)
    }

    /// Runs the process, and whatever it spawns, for at most `budget` rounds,
    /// and returns the first result that came, provided that the run was
    /// over by then.
    pub fn run_once_until_complete(self, store: &mut Store, budget: usize) -> (result: Option<
        RuntimeExpression,
    >)
        ensures
            final(store)@ == scheduled(seq![self@], Seq::empty(), old(store)@, budget as nat).store,
            final(store)@.extends(old(store)@),
            crate::expressions::optional_model(result) == first_result(
                scheduled(seq![self@], Seq::empty(), old(store)@, budget as nat),
            ),
    {
        let schedule = self.run_until_complete(store, budget);
        if schedule.active.len() == 0 && schedule.completed.len() > 0 {
            Some(schedule.completed[0].clone())
        } else {
            None
        }
    }
}

/// The last process of a sequence in which only the last result counts
/// stands for the sequence: the step that finds it alone returns it as it
/// is, with no wrapper around it and without a step of its own, so that
/// what is called in tail position does not run inside its caller.
pub proof fn lemma_last_of_sequence_is_unwrapped(last: ProcessModel, store: StoreModel)
    ensures
        stepped(StepableModel::SequenceTco(Box::new(last), Seq::empty()), store) == (last, store),
        began_tco(seq![last], store) == (last, store),
        sequenced_tco(seq![last]) == last,
{
    assert(seq![last].drop_first() =~= Seq::empty());
}

/// What at most `steps` steps make of a process that runs alone: it is
/// stepped until it is complete or has spawned.
pub open spec fn run_alone(process: ProcessModel, store: StoreModel, steps: nat) -> (
    ProcessModel,
    StoreModel,
)
    decreases steps,
{
    if steps == 0 {
        (process, store)
    } else {
        match process {
            ProcessModel::Running(stepable) => {
                let (next, cells) = stepped(stepable, store);
                run_alone(next, cells, (steps - 1) as nat)
            },
            _ => (process, store),
        }
    }
}

/// Running for `first` steps and then for `then` more is running for
/// `first + then` steps.
pub proof fn lemma_run_alone_in_two(
    process: ProcessModel,
    store: StoreModel,
    first: nat,
    then: nat,
)
    ensures
        run_alone(process, store, first + then) == run_alone(
            run_alone(process, store, first).0,
            run_alone(process, store, first).1,
            then,
        ),
    decreases first,
{
    if first > 0 {
        match process {
            ProcessModel::Running(stepable) => {
                let (next, cells) = stepped(stepable, store);
                lemma_run_alone_in_two(next, cells, (first - 1) as nat, then);
            },
            _ => {
                assert(run_alone(process, store, then) == (process, store));
            },
        }
    }
}

/// A process that completes when it runs alone completes in front of a
/// sequence just the same: after some steps of the sequence, its result is
/// the last of the results, the store is as the process left it, and the
/// processes behind it are as they were. The number of steps is returned.
pub proof fn lemma_sequence_runs_its_front(
    front: ProcessModel,
    behind: Seq<ProcessModel>,
    results: Seq<Value>,
    store: StoreModel,
    steps: nat,
) -> (taken: nat)
    requires
        run_alone(front, store, steps).0 is Complete,
    ensures
        run_alone(
            ProcessModel::Running(StepableModel::Sequence(seq![front] + behind, results)),
            store,
            taken,
        ) == (
            ProcessModel::Running(
                StepableModel::Sequence(
                    behind,
                    results.push(run_alone(front, store, steps).0->Complete_0),
                ),
            ),
            run_alone(front, store, steps).1,
        ),
    decreases steps,
{
    let waiting = seq![front] + behind;
    let sequence = ProcessModel::Running(StepableModel::Sequence(waiting, results));
    assert(waiting.drop_first() =~= behind);
    assert(waiting[0] == front);
    reveal_with_fuel(run_alone, 2);
    match front {
        ProcessModel::Complete(value) => {
            assert(run_alone(front, store, steps) == (front, store));
            1
        },
        ProcessModel::Running(stepable) => {
            let (next, cells) = stepped(stepable, store);
            assert(steps > 0);
            let more = lemma_sequence_runs_its_front(
                next,
                behind,
                results,
                cells,
                (steps - 1) as nat,
            );
            let stepped_once = ProcessModel::Running(
                StepableModel::Sequence(seq![next] + behind, results),
            );
            assert(run_alone(sequence, store, 1) == (stepped_once, cells));
            lemma_run_alone_in_two(sequence, store, 1, more);
            more + 1
        },
        ProcessModel::Spawn(_, _) => {
            assert(run_alone(front, store, steps) == (front, store));
            0
        },
    }
}

/// Whether each of the processes, run alone for its number of steps from the
/// store that the one before it left, completes with its value: `stores`
/// holds the store before each process, and the store after the last.
pub open spec fn complete_in_turn(
    processes: Seq<ProcessModel>,
    steps: Seq<nat>,
    values: Seq<Value>,
    stores: Seq<StoreModel>,
) -> bool {
    &&& steps.len() == processes.len()
    &&& values.len() == processes.len()
    &&& stores.len() == processes.len() + 1
    &&& forall|i: int|
        0 <= i < processes.len() ==> run_alone(#[trigger] processes[i], stores[i], steps[i]) == (
            ProcessModel::Complete(values[i]),
            stores[i + 1],
        )
}

/// A sequence gives its results in the order of its processes, however many
/// steps each of them takes: where the processes complete one after the
/// other, each from the store that the one before it left, the sequence
/// completes with the list of their values in that order, whatever results
/// it held before in front of them, and leaves the last store. The number of
/// steps that this takes is returned.
pub proof fn lemma_sequence_keeps_order(
    processes: Seq<ProcessModel>,
    results: Seq<Value>,
    steps: Seq<nat>,
    values: Seq<Value>,
    stores: Seq<StoreModel>,
) -> (taken: nat)
    requires
        complete_in_turn(processes, steps, values, stores),
    ensures
        run_alone(
            ProcessModel::Running(StepableModel::Sequence(processes, results)),
            stores[0],
            taken,
        ) == (ProcessModel::Complete(Value::List(results + values)), stores.last()),
    decreases processes.len(),
{
    let sequence = ProcessModel::Running(StepableModel::Sequence(processes, results));
    reveal_with_fuel(run_alone, 2);
    if processes.len() == 0 {
        assert(results + values =~= results);
        1
    } else {
        let behind = processes.drop_first();
        assert(seq![processes[0]] + behind =~= processes);
        let first = lemma_sequence_runs_its_front(
            processes[0],
            behind,
            results,
            stores[0],
            steps[0],
        );
        assert forall|i: int| 0 <= i < behind.len() implies run_alone(
            #[trigger] behind[i],
            stores.drop_first()[i],
            steps.drop_first()[i],
        ) == (ProcessModel::Complete(values.drop_first()[i]), stores.drop_first()[i + 1]) by {
            assert(behind[i] == processes[i + 1]);
        }
        let then = lemma_sequence_keeps_order(
            behind,
            results.push(values[0]),
            steps.drop_first(),
            values.drop_first(),
            stores.drop_first(),
        );
        lemma_run_alone_in_two(sequence, stores[0], first, then);
        assert(results.push(values[0]) + values.drop_first() =~= results + values);
        assert(stores.drop_first().last() == stores.last());
        first + then
    }
}

/// A process that completes when it runs alone completes in front of a
/// sequence in which only the last result counts just the same: after some
/// steps the sequence has dropped it and stands before the next process,
/// with the store as the process left it. The number of steps is returned.
proof fn lemma_sequence_tco_runs_its_front(
    front: ProcessModel,
    rest: Seq<ProcessModel>,
    store: StoreModel,
    steps: nat,
) -> (taken: nat)
    requires
        rest.len() > 0,
        run_alone(front, store, steps).0 is Complete,
    ensures
        run_alone(
            ProcessModel::Running(StepableModel::SequenceTco(Box::new(front), rest)),
            store,
            taken,
        ) == (
            ProcessModel::Running(
                StepableModel::SequenceTco(Box::new(rest[0]), rest.drop_first()),
            ),
            run_alone(front, store, steps).1,
        ),
    decreases steps,
{
    let sequence = ProcessModel::Running(StepableModel::SequenceTco(Box::new(front), rest));
    reveal_with_fuel(run_alone, 2);
    match front {
        ProcessModel::Complete(_) => {
            assert(run_alone(front, store, steps) == (front, store));
            1
        },
        ProcessModel::Running(stepable) => {
            let (next, cells) = stepped(stepable, store);
            assert(steps > 0);
            let more = lemma_sequence_tco_runs_its_front(next, rest, cells, (steps - 1) as nat);
            let stepped_once = ProcessModel::Running(
                StepableModel::SequenceTco(Box::new(next), rest),
            );
            assert(run_alone(sequence, store, 1) == (stepped_once, cells));
            lemma_run_alone_in_two(sequence, store, 1, more);
            more + 1
        },
        ProcessModel::Spawn(_, _) => {
            assert(run_alone(front, store, steps) == (front, store));
            0
        },
    }
}

/// The sequence over `processes` and `last` in which only the last result
/// counts, as a step finds it.
pub open spec fn before_the_last(processes: Seq<ProcessModel>, last: ProcessModel) -> ProcessModel {
    ProcessModel::Running(
        StepableModel::SequenceTco(
            Box::new((processes + seq![last])[0]),
            (processes + seq![last]).drop_first(),
        ),
    )
}

/// A sequence in which only the last result counts becomes its last process.
/// Where the processes before the last complete one after the other, each
/// from the store that the one before it left, the sequence is, after some
/// steps, the last process itself, in the store that they left: not a
/// process that holds it. This holds whatever the last process is, so the
/// process of a function that calls itself as the last thing it does is
/// replaced by the process of that call and never holds it, however often
/// the function does so. The number of steps, which is not zero, is
/// returned.
pub proof fn lemma_sequence_tco_becomes_its_last(
    processes: Seq<ProcessModel>,
    last: ProcessModel,
    steps: Seq<nat>,
    values: Seq<Value>,
    stores: Seq<StoreModel>,
) -> (taken: nat)
    requires
        complete_in_turn(processes, steps, values, stores),
    ensures
        taken > 0,
        run_alone(before_the_last(processes, last), stores[0], taken) == (last, stores.last()),
    decreases processes.len(),
{
    let all = processes + seq![last];
    let sequence = before_the_last(processes, last);
    reveal_with_fuel(run_alone, 2);
    if processes.len() == 0 {
        assert(all.drop_first() =~= Seq::<ProcessModel>::empty());
        assert(all[0] == last);
        1
    } else {
        let behind = processes.drop_first();
        let rest = all.drop_first();
        assert(rest =~= behind + seq![last]);
        assert(all[0] == processes[0]);
        let first = lemma_sequence_tco_runs_its_front(processes[0], rest, stores[0], steps[0]);
        assert forall|i: int| 0 <= i < behind.len() implies run_alone(
            #[trigger] behind[i],
            stores.drop_first()[i],
            steps.drop_first()[i],
        ) == (ProcessModel::Complete(values.drop_first()[i]), stores.drop_first()[i + 1]) by {
            assert(behind[i] == processes[i + 1]);
        }
        let then = lemma_sequence_tco_becomes_its_last(
            behind,
            last,
            steps.drop_first(),
            values.drop_first(),
            stores.drop_first(),
        );
        lemma_run_alone_in_two(sequence, stores[0], first, then);
        assert(stores.drop_first().last() == stores.last());
        first + then
    }
}

/// What `run_in_sequence_tco` returns becomes the last of its processes in
/// the same way: the call is the first of the steps of which
/// `lemma_sequence_tco_becomes_its_last` speaks. The number of steps that
/// are left after the call is returned.
pub proof fn lemma_run_in_sequence_tco_becomes_its_last(
    processes: Seq<ProcessModel>,
    last: ProcessModel,
    steps: Seq<nat>,
    values: Seq<Value>,
    stores: Seq<StoreModel>,
) -> (taken: nat)
    requires
        complete_in_turn(processes, steps, values, stores),
    ensures
        run_alone(
            began_tco(processes + seq![last], stores[0]).0,
            began_tco(processes + seq![last], stores[0]).1,
            taken,
        ) == (last, stores.last()),
{
    let all = lemma_sequence_tco_becomes_its_last(processes, last, steps, values, stores);
    (all - 1) as nat
}

/// A process that completes when it runs alone completes before a
/// continuation just the same, and its result is handed over in the step in
/// which it completes: after some steps the chain has become what the
/// continuation makes of the result. The number of steps is returned.
pub proof fn lemma_chain_hands_over(
    process: ProcessModel,
    continuation: ContinuationModel,
    store: StoreModel,
    steps: nat,
) -> (taken: nat)
    requires
        run_alone(process, store, steps).0 is Complete,
    ensures
        run_alone(chained(process, continuation), store, taken) == resumed(
            continuation,
            run_alone(process, store, steps).0->Complete_0,
            run_alone(process, store, steps).1,
        ),
        taken > 0,
    decreases steps,
{
    reveal_with_fuel(run_alone, 2);
    let chain = chained(process, continuation);
    match process {
        ProcessModel::Complete(value) => {
            assert(run_alone(process, store, steps) == (process, store));
            1
        },
        ProcessModel::Running(stepable) => {
            let (next, cells) = stepped(stepable, store);
            assert(steps > 0);
            match next {
                ProcessModel::Running(_) => {
                    let more = lemma_chain_hands_over(
                        next,
                        continuation,
                        cells,
                        (steps - 1) as nat,
                    );
                    assert(run_alone(chain, store, 1) == (chained(next, continuation), cells));
                    lemma_run_alone_in_two(chain, store, 1, more);
                    more + 1
                },
                ProcessModel::Complete(value) => {
                    assert(run_alone(next, cells, (steps - 1) as nat) == (next, cells));
                    1
                },
                ProcessModel::Spawn(_, _) => {
                    assert(run_alone(next, cells, (steps - 1) as nat) == (next, cells));
                    1
                },
            }
        },
        ProcessModel::Spawn(_, _) => {
            assert(run_alone(process, store, steps) == (process, store));
            1
        },
    }
}

/// The scheduler runs a lone process as the process runs alone: where the
/// process completes by itself, the run that starts with it alone completes
/// after some rounds with its result added to the results, no process left,
/// and the store as the process left it. The number of rounds is returned.
pub proof fn lemma_schedule_runs_a_lone_process(
    process: ProcessModel,
    completed: Seq<Value>,
    store: StoreModel,
    steps: nat,
) -> (rounds: nat)
    requires
        run_alone(process, store, steps).0 is Complete,
    ensures
        scheduled(seq![process], completed, store, rounds) == (ScheduleModel {
            completed: completed.push(run_alone(process, store, steps).0->Complete_0),
            active: Seq::empty(),
            store: run_alone(process, store, steps).1,
        }),
    decreases steps,
{
    reveal_with_fuel(scheduled, 2);
    assert(seq![process].drop_first() =~= Seq::<ProcessModel>::empty());
    match process {
        ProcessModel::Complete(value) => {
            assert(run_alone(process, store, steps) == (process, store));
            1
        },
        ProcessModel::Running(stepable) => {
            let (next, cells) = stepped(stepable, store);
            assert(seq![process].drop_first().push(next) =~= seq![next]);
            lemma_schedule_runs_a_lone_process(next, completed, cells, (steps - 1) as nat) + 1
        },
        ProcessModel::Spawn(_, _) => {
            assert(run_alone(process, store, steps) == (process, store));
            0
        },
    }
}

/// Processes that are complete are reported in the order in which they
/// stand in the queue, one in each round.
pub proof fn lemma_complete_processes_are_reported_in_order(
    values: Seq<Value>,
    completed: Seq<Value>,
    store: StoreModel,
)
    ensures
        scheduled(
            Seq::new(values.len(), |i: int| ProcessModel::Complete(values[i])),
            completed,
            store,
            values.len(),
        ) == (ScheduleModel { completed: completed + values, active: Seq::empty(), store }),
    decreases values.len(),
{
    let active = Seq::new(values.len(), |i: int| ProcessModel::Complete(values[i]));
    if values.len() == 0 {
        assert(active =~= Seq::empty());
        assert(completed + values =~= completed);
    } else {
        let rest = values.drop_first();
        assert(active.drop_first() =~= Seq::new(
            rest.len(),
            |i: int| ProcessModel::Complete(rest[i]),
        ));
        lemma_complete_processes_are_reported_in_order(rest, completed.push(values[0]), store);
        assert(completed.push(values[0]) + rest =~= completed + values);
    }
}

/// A sequence that has done the part of its first unit that needs no step
/// gives its results in the order of its processes, as every sequence does:
/// where the processes complete one after the other, each from the store
/// that the one before it left, it completes with the list of their values
/// and leaves the last store. The number of steps is returned.
pub proof fn lemma_in_sequence_keeps_order(
    processes: Seq<ProcessModel>,
    steps: Seq<nat>,
    values: Seq<Value>,
    stores: Seq<StoreModel>,
) -> (taken: nat)
    requires
        complete_in_turn(processes, steps, values, stores),
    ensures
        run_alone(sequenced(processes), stores[0], taken) == (
            ProcessModel::Complete(Value::List(values)),
            stores.last(),
        ),
{
    if processes.len() == 0 {
        assert(values =~= Seq::empty());
        0
    } else {
        match processes[0] {
            ProcessModel::Complete(value) => {
                assert(run_alone(processes[0], stores[0], steps[0]) == (processes[0], stores[0]));
                let behind = processes.drop_first();
                assert forall|i: int| 0 <= i < behind.len() implies run_alone(
                    #[trigger] behind[i],
                    stores.drop_first()[i],
                    steps.drop_first()[i],
                ) == (
                    ProcessModel::Complete(values.drop_first()[i]),
                    stores.drop_first()[i + 1],
                ) by {
                    assert(behind[i] == processes[i + 1]);
                }
                let taken = lemma_sequence_keeps_order(
                    behind,
                    seq![value],
                    steps.drop_first(),
                    values.drop_first(),
                    stores.drop_first(),
                );
                assert(seq![value] + values.drop_first() =~= values);
                assert(stores.drop_first().last() == stores.last());
                assert(stores.drop_first()[0] == stores[0]);
                taken
            },
            ProcessModel::Running(_) => {
                let taken = lemma_sequence_keeps_order(
                    processes,
                    Seq::empty(),
                    steps,
                    values,
                    stores,
                );
                assert(Seq::<Value>::empty() + values =~= values);
                taken
            },
            ProcessModel::Spawn(_, _) => {
                assert(run_alone(processes[0], stores[0], steps[0]) == (processes[0], stores[0]));
                0
            },
        }
    }
}

/// `run_in_sequence` gives its results in the order of its processes: where
/// the processes complete one after the other, each from the store that the
/// one before it left, what the call returns completes, after the number of
/// steps that is returned, with the list of their values, and leaves the
/// last store.
pub proof fn lemma_run_in_sequence_keeps_order(
    processes: Seq<ProcessModel>,
    steps: Seq<nat>,
    values: Seq<Value>,
    stores: Seq<StoreModel>,
) -> (taken: nat)
    requires
        complete_in_turn(processes, steps, values, stores),
    ensures
        run_alone(began(processes, stores[0]).0, began(processes, stores[0]).1, taken) == (
            ProcessModel::Complete(Value::List(values)),
            stores.last(),
        ),
{
    let all = lemma_sequence_keeps_order(processes, Seq::empty(), steps, values, stores);
    assert(Seq::<Value>::empty() + values =~= values);
    let sequence = ProcessModel::Running(StepableModel::Sequence(processes, Seq::empty()));
    if all == 0 {
        assert(run_alone(sequence, stores[0], 0) == (sequence, stores[0]));
        0
    } else {
        assert(run_alone(sequence, stores[0], all) == run_alone(
            began(processes, stores[0]).0,
            began(processes, stores[0]).1,
            (all - 1) as nat,
        ));
        (all - 1) as nat
    }
}

/// A step adds cells to the store or fills an empty one; what was in the
/// store stays as it was. So an environment that belongs to the store before
/// a step belongs to it after the step.
pub proof fn lemma_stepped_extends(stepable: StepableModel, store: StoreModel)
    ensures
        stepped(stepable, store).1.extends(store),
    decreases stepable,
{
    match stepable {
        StepableModel::Deferred(_) => {},
        StepableModel::Evaluate(expression, environment) => {
            crate::eval::lemma_evaluated_extends(expression, environment, store);
        },
        StepableModel::AndThen(process, continuation) => match *process {
            ProcessModel::Running(inner) => {
                lemma_stepped_extends(inner, store);
                let (next, cells) = stepped(inner, store);
                lemma_handed_on_extends(next, continuation, cells);
                lemma_extends_in_two(store, cells, handed_on(next, continuation, cells).1);
            },
            _ => {
                lemma_handed_on_extends(*process, continuation, store);
            },
        },
        StepableModel::Sequence(processes, _) => if processes.len() > 0 {
            match processes[0] {
                ProcessModel::Running(inner) => {
                    lemma_stepped_extends(inner, store);
                },
                _ => {},
            }
        },
        StepableModel::SequenceTco(first, rest) => if rest.len() > 0 {
            match *first {
                ProcessModel::Running(inner) => {
                    lemma_stepped_extends(inner, store);
                },
                _ => {},
            }
        },
    }
}

/// Handing a result on adds cells to the store or fills an empty one.
pub proof fn lemma_handed_on_extends(
    process: ProcessModel,
    continuation: ContinuationModel,
    store: StoreModel,
)
    ensures
        handed_on(process, continuation, store).1.extends(store),
{
    match process {
        ProcessModel::Complete(value) => {
            crate::eval::lemma_resumed_extends(continuation, value, store);
        },
        _ => {},
    }
}

/// The scheduler adds cells to the store or fills empty ones, however many
/// rounds it runs.
pub proof fn lemma_scheduled_extends(
    active: Seq<ProcessModel>,
    completed: Seq<Value>,
    store: StoreModel,
    budget: nat,
)
    ensures
        scheduled(active, completed, store, budget).store.extends(store),
    decreases budget,
{
    if !(budget == 0 || active.len() == 0) {
        match active[0] {
            ProcessModel::Complete(value) => {
                lemma_scheduled_extends(
                    active.drop_first(),
                    completed.push(value),
                    store,
                    (budget - 1) as nat,
                );
            },
            ProcessModel::Running(stepable) => {
                lemma_stepped_extends(stepable, store);
                let (next, cells) = stepped(stepable, store);
                lemma_scheduled_extends(
                    active.drop_first().push(next),
                    completed,
                    cells,
                    (budget - 1) as nat,
                );
                lemma_extends_in_two(
                    store,
                    cells,
                    scheduled(
                        active.drop_first().push(next),
                        completed,
                        cells,
                        (budget - 1) as nat,
                    ).store,
                );
            },
            ProcessModel::Spawn(rest, spawned) => {
                lemma_scheduled_extends(
                    active.drop_first() + spawned + seq![*rest],
                    completed,
                    store,
                    (budget - 1) as nat,
                );
            },
        }
    }
}

/// What one pass over the queue makes of it: every process of the queue is
/// served once, in the order of the queue, each from the store that the one
/// before it left. `completed` holds the results of the processes that were
/// complete, in the order of the queue. `active` holds what is left for the
/// next pass, in the order of the queue too: of a running process its next
/// step, and of one that has spawned processes those processes and, behind
/// them, the process to go on with.
pub open spec fn served(active: Seq<ProcessModel>, store: StoreModel) -> ScheduleModel
    decreases active.len(),
{
    if active.len() == 0 {
        ScheduleModel { completed: Seq::empty(), active: Seq::empty(), store }
    } else {
        match active[0] {
            ProcessModel::Complete(value) => {
                let behind = served(active.drop_first(), store);
                ScheduleModel { completed: seq![value] + behind.completed, ..behind }
            },
            ProcessModel::Running(stepable) => {
                let (next, cells) = stepped(stepable, store);
                let behind = served(active.drop_first(), cells);
                ScheduleModel { active: seq![next] + behind.active, ..behind }
            },
            ProcessModel::Spawn(rest, spawned) => {
                let behind = served(active.drop_first(), store);
                ScheduleModel { active: spawned + seq![*rest] + behind.active, ..behind }
            },
        }
    }
}

/// The rounds that serve the processes in front of the queue put what is
/// left of them behind the processes at the back.
proof fn lemma_schedule_serves_the_front(
    front: Seq<ProcessModel>,
    back: Seq<ProcessModel>,
    completed: Seq<Value>,
    store: StoreModel,
)
    ensures
        scheduled(front + back, completed, store, front.len()) == (ScheduleModel {
            completed: completed + served(front, store).completed,
            active: back + served(front, store).active,
            store: served(front, store).store,
        }),
    decreases front.len(),
{
    if front.len() == 0 {
        assert(front + back =~= back);
        assert(completed + served(front, store).completed =~= completed);
        assert(back + served(front, store).active =~= back);
    } else {
        let queue = front + back;
        let rest = front.drop_first();
        assert(queue[0] == front[0]);
        assert(queue.drop_first() =~= rest + back);
        match front[0] {
            ProcessModel::Complete(value) => {
                let behind = served(rest, store);
                lemma_schedule_serves_the_front(rest, back, completed.push(value), store);
                assert(completed.push(value) + behind.completed =~= completed + (seq![value]
                    + behind.completed));
            },
            ProcessModel::Running(stepable) => {
                let (next, cells) = stepped(stepable, store);
                let behind = served(rest, cells);
                assert(queue.drop_first().push(next) =~= rest + back.push(next));
                lemma_schedule_serves_the_front(rest, back.push(next), completed, cells);
                assert(back.push(next) + behind.active =~= back + (seq![next] + behind.active));
            },
            ProcessModel::Spawn(go_on, spawned) => {
                let behind = served(rest, store);
                let more = back + spawned + seq![*go_on];
                assert(queue.drop_first() + spawned + seq![*go_on] =~= rest + more);
                lemma_schedule_serves_the_front(rest, more, completed, store);
                assert(more + behind.active =~= back + (spawned + seq![*go_on] + behind.active));
            },
        }
    }
}

/// The scheduler works in passes, and this is what orders the results. As
/// many rounds as the queue has processes serve each of them once: the
/// results of the processes that were complete are reported in the order of
/// the queue, and what is left stands in the new queue in that order too. So
/// a process that needs fewer passes is reported before one that needs
/// more, whatever their places, and of two that need the same number the
/// one that stands first.
pub proof fn lemma_schedule_works_in_passes(
    active: Seq<ProcessModel>,
    completed: Seq<Value>,
    store: StoreModel,
)
    ensures
        scheduled(active, completed, store, active.len()) == (ScheduleModel {
            completed: completed + served(active, store).completed,
            active: served(active, store).active,
            store: served(active, store).store,
        }),
{
    lemma_schedule_serves_the_front(active, Seq::empty(), completed, store);
    assert(active + Seq::<ProcessModel>::empty() =~= active);
    assert(Seq::<ProcessModel>::empty() + served(active, store).active =~= served(
        active,
        store,
    ).active);
}

/// Rounds add up: `first + then` rounds are `first` rounds and then `then`
/// more on what they have left.
pub proof fn lemma_schedule_in_two(
    active: Seq<ProcessModel>,
    completed: Seq<Value>,
    store: StoreModel,
    first: nat,
    then: nat,
)
    ensures
        scheduled(active, completed, store, first + then) == scheduled(
            scheduled(active, completed, store, first).active,
            scheduled(active, completed, store, first).completed,
            scheduled(active, completed, store, first).store,
            then,
        ),
    decreases first,
{
    if first == 0 {
    } else if active.len() == 0 {
        assert(scheduled(active, completed, store, then) == (ScheduleModel {
            completed,
            active,
            store,
        }));
    } else {
        match active[0] {
            ProcessModel::Complete(value) => {
                lemma_schedule_in_two(
                    active.drop_first(),
                    completed.push(value),
                    store,
                    (first - 1) as nat,
                    then,
                );
            },
            ProcessModel::Running(stepable) => {
                let (next, cells) = stepped(stepable, store);
                lemma_schedule_in_two(
                    active.drop_first().push(next),
                    completed,
                    cells,
                    (first - 1) as nat,
                    then,
                );
            },
            ProcessModel::Spawn(rest, spawned) => {
                lemma_schedule_in_two(
                    active.drop_first() + spawned + seq![*rest],
                    completed,
                    store,
                    (first - 1) as nat,
                    then,
                );
            },
        }
    }
}

} // verus!

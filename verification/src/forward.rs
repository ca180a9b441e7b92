//! Why a definition can refer to itself, however long the evaluation of its
//! value takes.
//!
//! `Def` reserves the cell of the name and leaves it to a continuation to
//! fill it. The law of this module says that nothing else fills the cell:
//! every continuation that fills a cell was made by a `Def` for a cell that
//! was fresh then, so that the processes that evaluate the value leave the
//! reserved cell alone, step after step, until the value is there.

use crate::environment::{
    extended, lemma_extended_extends, lemma_extends_in_two, lookup, paired, StoreModel,
};
use crate::eval::{
    applied, applied_function, arguments_begun, body_begun, callable, chosen, deferred_each,
    defining, evaluated, evaluated_each, lemma_applied_extends, lemma_chosen_extends,
    lemma_evaluated_each_extends, lemma_evaluated_extends, lemma_quoted_each_extends,
    lemma_quoted_extends, native_called, quoted, quoted_each, resumed,
};
use crate::expressions::{Builtin, NativeMacro, Value};
use crate::persistent::Slots;
use crate::process::{
    handed_on, lemma_chain_hands_over, lemma_handed_on_extends, lemma_stepped_extends, run_alone,
    sequenced, sequenced_tco, stepped, ContinuationModel, ProcessModel, StepableModel,
};
use crate::standard_library::matching::matched;
use vstd::prelude::*;

verus! {

/// Whether the continuation leaves the cell alone: it does not fill it.
pub open spec fn continuation_avoids(continuation: ContinuationModel, cell: nat) -> bool {
    match continuation {
        ContinuationModel::Provide(name, environment) => !environment.contains_key(name)
            || environment[name] != cell,
        _ => true,
    }
}

/// Whether every process of the sequence leaves the cell alone.
pub open spec fn each_avoids(processes: Seq<ProcessModel>, cell: nat) -> bool
    decreases processes, 0nat,
{
    forall|i: int|
        0 <= i < processes.len() ==> process_avoids(#[trigger] processes[i], cell)
}

/// Whether the work holds no continuation that fills the cell.
pub open spec fn stepable_avoids(stepable: StepableModel, cell: nat) -> bool
    decreases stepable, 1nat,
{
    match stepable {
        StepableModel::Deferred(process) => process_avoids(*process, cell),
        StepableModel::Evaluate(_, _) => true,
        StepableModel::AndThen(process, continuation) => process_avoids(*process, cell)
            && continuation_avoids(continuation, cell),
        StepableModel::Sequence(processes, _) => each_avoids(processes, cell),
        StepableModel::SequenceTco(first, rest) => process_avoids(*first, cell) && each_avoids(
            rest,
            cell,
        ),
    }
}

/// Whether the process holds no continuation that fills the cell.
pub open spec fn process_avoids(process: ProcessModel, cell: nat) -> bool
    decreases process, 1nat,
{
    match process {
        ProcessModel::Complete(_) => true,
        ProcessModel::Running(stepable) => stepable_avoids(stepable, cell),
        ProcessModel::Spawn(rest, spawned) => process_avoids(*rest, cell) && each_avoids(
            spawned,
            cell,
        ),
    }
}

/// A sequence that is put together of processes that leave the cell alone
/// leaves it alone.
proof fn lemma_sequenced_avoids(parts: Seq<ProcessModel>, cell: nat)
    requires
        each_avoids(parts, cell),
    ensures
        process_avoids(sequenced(parts), cell),
{
    reveal_with_fuel(process_avoids, 5);
    reveal_with_fuel(stepable_avoids, 5);
    reveal_with_fuel(each_avoids, 5);
    if parts.len() > 0 {
        let behind = parts.drop_first();
        assert forall|i: int| 0 <= i < behind.len() implies process_avoids(
            #[trigger] behind[i],
            cell,
        ) by {
            assert(behind[i] == parts[i + 1]);
        }
        assert(process_avoids(parts[0], cell));
        match parts[0] {
            ProcessModel::Spawn(go_on, spawned) => {
                let waiting = seq![*go_on] + behind;
                assert forall|i: int| 0 <= i < waiting.len() implies process_avoids(
                    #[trigger] waiting[i],
                    cell,
                ) by {
                    if i > 0 {
                        assert(waiting[i] == behind[i - 1]);
                    }
                }
            },
            _ => {},
        }
    }
}

/// Evaluations that wait hold no continuation at all.
proof fn lemma_deferred_avoid(expressions: Seq<Value>, environment: Slots, cell: nat)
    ensures
        each_avoids(deferred_each(expressions, environment), cell),
        expressions.len() > 0 ==> process_avoids(
            sequenced_tco(deferred_each(expressions, environment)),
            cell,
        ),
{
    reveal_with_fuel(process_avoids, 5);
    reveal_with_fuel(stepable_avoids, 5);
    reveal_with_fuel(each_avoids, 5);
    let waiting = deferred_each(expressions, environment);
    assert forall|i: int| 0 <= i < waiting.len() implies process_avoids(
        #[trigger] waiting[i],
        cell,
    ) by {}
    if expressions.len() > 1 {
        let behind = waiting.drop_first();
        assert forall|i: int| 0 <= i < behind.len() implies process_avoids(
            #[trigger] behind[i],
            cell,
        ) by {
            assert(behind[i] == waiting[i + 1]);
        }
    }
}

/// What `eval` returns fills no cell that was in the store before the call.
pub proof fn lemma_evaluated_avoids(
    expression: Value,
    environment: Slots,
    store: StoreModel,
    cell: nat,
)
    requires
        cell < store.cells.len(),
        evaluated(expression, environment, store).1.cells.len() <= usize::MAX,
    ensures
        process_avoids(evaluated(expression, environment, store).0, cell),
    decreases expression, 0nat,
{
    reveal_with_fuel(process_avoids, 5);
    reveal_with_fuel(stepable_avoids, 5);
    reveal_with_fuel(each_avoids, 5);
    match expression {
        Value::TaggedTuple(tag, arguments) => match *tag {
            Value::Symbol(name) => match lookup(environment, name, store) {
                Some(function) => if callable(function) {
                    lemma_arguments_begun_avoids(arguments, environment, store, cell);
                },
                None => {},
            },
            Value::Keyword(_) => {
                lemma_arguments_begun_avoids(arguments, environment, store, cell);
            },
            _ => {},
        },
        Value::MacroCall(name, arguments) => match lookup(environment, name, store) {
            Some(Value::Macro(parameters, closed_over, body)) => {
                if body.len() > 0 {
                    let bindings = paired(parameters, arguments);
                    let child = extended(closed_over, bindings, bindings.len(), store).0;
                    lemma_deferred_avoid(body, child, cell);
                }
            },
            Some(Value::BuiltinMacro(_, native)) => {
                lemma_native_called_avoids(native, arguments, environment, store, cell);
            },
            _ => {},
        },
        Value::List(items) => {
            lemma_evaluated_each_avoids(items, environment, store, items.len(), cell);
            lemma_sequenced_avoids(
                evaluated_each(items, environment, store, items.len()).0,
                cell,
            );
        },
        _ => {},
    }
}

proof fn lemma_arguments_begun_avoids(
    arguments: Seq<Value>,
    environment: Slots,
    store: StoreModel,
    cell: nat,
)
    requires
        cell < store.cells.len(),
        arguments_begun(arguments, environment, store).1.cells.len() <= usize::MAX,
    ensures
        process_avoids(arguments_begun(arguments, environment, store).0, cell),
    decreases arguments, 0nat,
{
    reveal_with_fuel(process_avoids, 5);
    reveal_with_fuel(stepable_avoids, 5);
    reveal_with_fuel(each_avoids, 5);
    if arguments.len() > 0 {
        lemma_evaluated_avoids(arguments[0], environment, store, cell);
        let first = evaluated(arguments[0], environment, store).0;
        let behind = deferred_each(arguments.skip(1), environment);
        lemma_deferred_avoid(arguments.skip(1), environment, cell);
        let waiting = seq![first] + behind;
        assert forall|i: int| 0 <= i < waiting.len() implies process_avoids(
            #[trigger] waiting[i],
            cell,
        ) by {
            if i > 0 {
                assert(waiting[i] == behind[i - 1]);
            }
        }
    }
}

proof fn lemma_evaluated_each_avoids(
    items: Seq<Value>,
    environment: Slots,
    store: StoreModel,
    count: nat,
    cell: nat,
)
    requires
        cell < store.cells.len(),
        evaluated_each(items, environment, store, count).1.cells.len() <= usize::MAX,
    ensures
        each_avoids(evaluated_each(items, environment, store, count).0, cell),
    decreases items, count,
{
    if !(count == 0 || count > items.len()) {
        let (before, cells) = evaluated_each(items, environment, store, (count - 1) as nat);
        lemma_evaluated_each_extends(items, environment, store, (count - 1) as nat);
        lemma_evaluated_extends(items[count - 1], environment, cells);
        lemma_evaluated_each_avoids(items, environment, store, (count - 1) as nat, cell);
        lemma_evaluated_avoids(items[count - 1], environment, cells, cell);
        let last = evaluated(items[count - 1], environment, cells).0;
        let all = before.push(last);
        assert forall|i: int| 0 <= i < all.len() implies process_avoids(
            #[trigger] all[i],
            cell,
        ) by {
            if i < before.len() {
                assert(all[i] == before[i]);
            }
        }
    }
}

proof fn lemma_native_called_avoids(
    native: NativeMacro,
    arguments: Seq<Value>,
    environment: Slots,
    store: StoreModel,
    cell: nat,
)
    requires
        cell < store.cells.len(),
        native_called(native, arguments, environment, store).1.cells.len() <= usize::MAX,
    ensures
        process_avoids(native_called(native, arguments, environment, store).0, cell),
    decreases arguments, 0nat,
{
    reveal_with_fuel(process_avoids, 5);
    reveal_with_fuel(stepable_avoids, 5);
    reveal_with_fuel(each_avoids, 5);
    match native {
        NativeMacro::Def => if arguments.len() == 2 {
            match arguments[0] {
                Value::Symbol(name) | Value::String(name) => {
                    let child = environment.insert(name, store.cells.len() as usize);
                    lemma_evaluated_extends(arguments[1], child, store.allocate(None));
                    lemma_evaluated_avoids(arguments[1], child, store.allocate(None), cell);
                },
                _ => {},
            }
        },
        NativeMacro::Match => if arguments.len() == 2 {
            lemma_evaluated_avoids(arguments[0], environment, store, cell);
        },
        NativeMacro::Quote => if arguments.len() == 1 {
            lemma_quoted_avoids(arguments[0], environment, store, cell);
        },
        _ => {},
    }
}

proof fn lemma_quoted_avoids(value: Value, environment: Slots, store: StoreModel, cell: nat)
    requires
        cell < store.cells.len(),
        quoted(value, environment, store).1.cells.len() <= usize::MAX,
    ensures
        process_avoids(quoted(value, environment, store).0, cell),
    decreases value, 0nat,
{
    reveal_with_fuel(process_avoids, 5);
    reveal_with_fuel(stepable_avoids, 5);
    reveal_with_fuel(each_avoids, 5);
    match value {
        Value::Function(_, closed_over, body) => {
            lemma_quoted_each_avoids(body, closed_over, store, body.len(), cell);
            lemma_sequenced_avoids(quoted_each(body, closed_over, store, body.len()).0, cell);
        },
        Value::TaggedTuple(_, values) => {
            lemma_quoted_each_avoids(values, environment, store, values.len(), cell);
            lemma_sequenced_avoids(
                quoted_each(values, environment, store, values.len()).0,
                cell,
            );
        },
        Value::List(values) => {
            lemma_quoted_each_avoids(values, environment, store, values.len(), cell);
            lemma_sequenced_avoids(
                quoted_each(values, environment, store, values.len()).0,
                cell,
            );
        },
        Value::Macro(_, closed_over, body) => {
            lemma_quoted_each_avoids(body, closed_over, store, body.len(), cell);
            lemma_sequenced_avoids(quoted_each(body, closed_over, store, body.len()).0, cell);
        },
        Value::MacroCall(name, arguments) => if name == "Unquote"@ {
            if arguments.len() > 0 {
                lemma_evaluated_avoids(arguments[0], environment, store, cell);
            }
        } else {
            lemma_quoted_each_avoids(arguments, environment, store, arguments.len(), cell);
            lemma_sequenced_avoids(
                quoted_each(arguments, environment, store, arguments.len()).0,
                cell,
            );
        },
        Value::Definition(_, inner) => {
            lemma_quoted_avoids(*inner, environment, store, cell);
        },
        _ => {},
    }
}

proof fn lemma_quoted_each_avoids(
    values: Seq<Value>,
    environment: Slots,
    store: StoreModel,
    count: nat,
    cell: nat,
)
    requires
        cell < store.cells.len(),
        quoted_each(values, environment, store, count).1.cells.len() <= usize::MAX,
    ensures
        each_avoids(quoted_each(values, environment, store, count).0, cell),
    decreases values, count,
{
    if !(count == 0 || count > values.len()) {
        let (before, cells) = quoted_each(values, environment, store, (count - 1) as nat);
        lemma_quoted_each_extends(values, environment, store, (count - 1) as nat);
        lemma_quoted_extends(values[count - 1], environment, cells);
        lemma_quoted_each_avoids(values, environment, store, (count - 1) as nat, cell);
        lemma_quoted_avoids(values[count - 1], environment, cells, cell);
        let last = quoted(values[count - 1], environment, cells).0;
        let all = before.push(last);
        assert forall|i: int| 0 <= i < all.len() implies process_avoids(
            #[trigger] all[i],
            cell,
        ) by {
            if i < before.len() {
                assert(all[i] == before[i]);
            }
        }
    }
}

proof fn lemma_body_begun_avoids(body: Seq<Value>, environment: Slots, store: StoreModel, cell: nat)
    requires
        body.len() > 0,
        cell < store.cells.len(),
        body_begun(body, environment, store).1.cells.len() <= usize::MAX,
    ensures
        process_avoids(body_begun(body, environment, store).0, cell),
{
    reveal_with_fuel(process_avoids, 5);
    reveal_with_fuel(stepable_avoids, 5);
    reveal_with_fuel(each_avoids, 5);
    if body.len() > 1 {
        lemma_evaluated_avoids(body[0], environment, store, cell);
        lemma_deferred_avoid(body.skip(1), environment, cell);
    }
}

proof fn lemma_applied_function_avoids(
    parameters: Seq<Seq<char>>,
    environment: Slots,
    body: Seq<Value>,
    arguments: Seq<Value>,
    store: StoreModel,
    cell: nat,
)
    requires
        cell < store.cells.len(),
        applied_function(parameters, environment, body, arguments, store).1.cells.len()
            <= usize::MAX,
    ensures
        process_avoids(applied_function(parameters, environment, body, arguments, store).0, cell),
{
    if parameters.len() == arguments.len() && body.len() > 0 {
        let bindings = paired(parameters, arguments);
        lemma_extended_extends(environment, bindings, parameters.len(), store);
        let (child, cells) = extended(environment, bindings, parameters.len(), store);
        lemma_body_begun_avoids(body, child, cells, cell);
    }
}

proof fn lemma_applied_avoids(function: Value, arguments: Seq<Value>, store: StoreModel, cell: nat)
    requires
        cell < store.cells.len(),
        applied(function, arguments, store).1.cells.len() <= usize::MAX,
    ensures
        process_avoids(applied(function, arguments, store).0, cell),
{
    reveal_with_fuel(process_avoids, 5);
    reveal_with_fuel(stepable_avoids, 5);
    reveal_with_fuel(each_avoids, 5);
    match function {
        Value::BuiltinFunction(builtin) => {
            match builtin {
                Builtin::Spawn => if arguments.len() == 1 {
                    match arguments[0] {
                        Value::Function(parameters, environment, body) => {
                            lemma_applied_function_avoids(
                                parameters,
                                environment,
                                body,
                                Seq::empty(),
                                store,
                                cell,
                            );
                            let spawned = applied_function(
                                parameters,
                                environment,
                                body,
                                Seq::empty(),
                                store,
                            ).0;
                            assert(each_avoids(seq![spawned], cell));
                        },
                        _ => {},
                    }
                },
                _ => {},
            }
        },
        Value::Function(parameters, environment, body) => {
            lemma_applied_function_avoids(parameters, environment, body, arguments, store, cell);
        },
        _ => {},
    }
}

proof fn lemma_chosen_avoids(
    cases: Seq<Value>,
    value: Value,
    environment: Slots,
    store: StoreModel,
    start: int,
    cell: nat,
)
    requires
        cell < store.cells.len(),
        chosen(cases, value, environment, store, start).1.cells.len() <= usize::MAX,
    ensures
        process_avoids(chosen(cases, value, environment, store, start).0, cell),
    decreases cases.len() - start,
{
    if 0 <= start && start + 1 < cases.len() {
        match matched(cases[start], value) {
            Some(bindings) => {
                lemma_extended_extends(environment, bindings, bindings.len(), store);
                let (child, cells) = extended(environment, bindings, bindings.len(), store);
                lemma_evaluated_avoids(cases[start + 1], child, cells, cell);
            },
            None => {
                lemma_chosen_avoids(cases, value, environment, store, start + 2, cell);
            },
        }
    }
}

/// A continuation that leaves the cell alone leaves it empty, and what it
/// makes of its result leaves the cell alone.
proof fn lemma_resumed_avoids(
    continuation: ContinuationModel,
    value: Value,
    store: StoreModel,
    cell: nat,
)
    requires
        continuation_avoids(continuation, cell),
        store.vacant(cell as int),
        resumed(continuation, value, store).1.cells.len() <= usize::MAX,
    ensures
        process_avoids(resumed(continuation, value, store).0, cell),
        resumed(continuation, value, store).1.vacant(cell as int),
{
    match continuation {
        ContinuationModel::Apply(function) => match value {
            Value::List(arguments) => {
                lemma_applied_extends(function, arguments, store);
                lemma_applied_avoids(function, arguments, store, cell);
            },
            _ => {},
        },
        ContinuationModel::Evaluate(environment) => {
            lemma_evaluated_extends(value, environment, store);
            lemma_evaluated_avoids(value, environment, store, cell);
        },
        ContinuationModel::Match(cases, environment) => match cases {
            Value::List(cases) => if cases.len() % 2 == 0 {
                lemma_chosen_extends(cases, value, environment, store, 0);
                lemma_chosen_avoids(cases, value, environment, store, 0, cell);
            },
            _ => {},
        },
        _ => {},
    }
}

proof fn lemma_handed_on_avoids(
    process: ProcessModel,
    continuation: ContinuationModel,
    store: StoreModel,
    cell: nat,
)
    requires
        process_avoids(process, cell),
        continuation_avoids(continuation, cell),
        store.vacant(cell as int),
        handed_on(process, continuation, store).1.cells.len() <= usize::MAX,
    ensures
        process_avoids(handed_on(process, continuation, store).0, cell),
        handed_on(process, continuation, store).1.vacant(cell as int),
{
    reveal_with_fuel(process_avoids, 5);
    reveal_with_fuel(stepable_avoids, 5);
    reveal_with_fuel(each_avoids, 5);
    match process {
        ProcessModel::Complete(value) => {
            lemma_resumed_avoids(continuation, value, store, cell);
        },
        _ => {},
    }
}

/// A step of work that leaves the cell alone leaves it empty, and the
/// process that is left leaves it alone.
pub proof fn lemma_stepped_avoids(stepable: StepableModel, store: StoreModel, cell: nat)
    requires
        stepable_avoids(stepable, cell),
        store.vacant(cell as int),
        stepped(stepable, store).1.cells.len() <= usize::MAX,
    ensures
        process_avoids(stepped(stepable, store).0, cell),
        stepped(stepable, store).1.vacant(cell as int),
    decreases stepable,
{
    reveal_with_fuel(process_avoids, 5);
    reveal_with_fuel(stepable_avoids, 5);
    reveal_with_fuel(each_avoids, 5);
    match stepable {
        StepableModel::Deferred(_) => {},
        StepableModel::Evaluate(expression, environment) => {
            lemma_evaluated_extends(expression, environment, store);
            lemma_evaluated_avoids(expression, environment, store, cell);
        },
        StepableModel::AndThen(process, continuation) => match *process {
            ProcessModel::Running(inner) => {
                let (next, cells) = stepped(inner, store);
                lemma_handed_on_extends(next, continuation, cells);
                lemma_stepped_avoids(inner, store, cell);
                lemma_handed_on_avoids(next, continuation, cells, cell);
            },
            _ => {
                lemma_handed_on_avoids(*process, continuation, store, cell);
            },
        },
        StepableModel::Sequence(processes, _) => if processes.len() > 0 {
            let behind = processes.drop_first();
            assert forall|i: int| 0 <= i < behind.len() implies process_avoids(
                #[trigger] behind[i],
                cell,
            ) by {
                assert(behind[i] == processes[i + 1]);
            }
            assert(process_avoids(processes[0], cell));
            match processes[0] {
                ProcessModel::Running(inner) => {
                    lemma_stepped_avoids(inner, store, cell);
                    let next = stepped(inner, store).0;
                    let waiting = seq![next] + behind;
                    assert forall|i: int| 0 <= i < waiting.len() implies process_avoids(
                        #[trigger] waiting[i],
                        cell,
                    ) by {
                        if i > 0 {
                            assert(waiting[i] == behind[i - 1]);
                        }
                    }
                },
                ProcessModel::Spawn(go_on, _) => {
                    let waiting = seq![*go_on] + behind;
                    assert forall|i: int| 0 <= i < waiting.len() implies process_avoids(
                        #[trigger] waiting[i],
                        cell,
                    ) by {
                        if i > 0 {
                            assert(waiting[i] == behind[i - 1]);
                        }
                    }
                },
                _ => {},
            }
        },
        StepableModel::SequenceTco(first, rest) => if rest.len() > 0 {
            match *first {
                ProcessModel::Running(inner) => {
                    lemma_stepped_avoids(inner, store, cell);
                },
                ProcessModel::Complete(_) => {
                    let behind = rest.drop_first();
                    assert forall|i: int| 0 <= i < behind.len() implies process_avoids(
                        #[trigger] behind[i],
                        cell,
                    ) by {
                        assert(behind[i] == rest[i + 1]);
                    }
                    assert(process_avoids(rest[0], cell));
                },
                _ => {},
            }
        },
    }
}

/// A process that leaves the cell alone leaves it empty however long it
/// runs alone.
pub proof fn lemma_run_alone_avoids(
    process: ProcessModel,
    store: StoreModel,
    steps: nat,
    cell: nat,
)
    requires
        process_avoids(process, cell),
        store.vacant(cell as int),
        run_alone(process, store, steps).1.cells.len() <= usize::MAX,
    ensures
        process_avoids(run_alone(process, store, steps).0, cell),
        run_alone(process, store, steps).1.vacant(cell as int),
        run_alone(process, store, steps).1.extends(store),
    decreases steps,
{
    if steps > 0 {
        match process {
            ProcessModel::Running(stepable) => {
                let (next, cells) = stepped(stepable, store);
                lemma_stepped_extends(stepable, store);
                lemma_run_alone_extends(next, cells, (steps - 1) as nat);
                lemma_stepped_avoids(stepable, store, cell);
                lemma_run_alone_avoids(next, cells, (steps - 1) as nat, cell);
                lemma_extends_in_two(
                    store,
                    cells,
                    run_alone(next, cells, (steps - 1) as nat).1,
                );
            },
            _ => {},
        }
    }
}

/// A process that runs alone adds cells to the store or fills empty ones.
pub proof fn lemma_run_alone_extends(process: ProcessModel, store: StoreModel, steps: nat)
    ensures
        run_alone(process, store, steps).1.extends(store),
    decreases steps,
{
    if steps > 0 {
        match process {
            ProcessModel::Running(stepable) => {
                let (next, cells) = stepped(stepable, store);
                lemma_stepped_extends(stepable, store);
                lemma_run_alone_extends(next, cells, (steps - 1) as nat);
                lemma_extends_in_two(
                    store,
                    cells,
                    run_alone(next, cells, (steps - 1) as nat).1,
                );
            },
            _ => {},
        }
    }
}

/// A definition sees itself, however long the evaluation of its value
/// takes. `Def` reserves the cell of the name and evaluates the value in an
/// environment in which the name is bound to that cell. Where the process
/// of the value completes when it runs alone, in a store that a machine can
/// hold, the cell is still empty then, because no step of the process fills
/// it; the process of the definition then fills it and completes with the
/// definition, and from then on the name has the value in the environment of
/// the evaluation: in every copy of it, such as the one that a function
/// closed over when it was made, while the cell was empty. The number of
/// steps of the process of the definition is returned.
pub proof fn lemma_definition_sees_itself_in_the_end(
    name: Seq<char>,
    value: Value,
    environment: Slots,
    store: StoreModel,
    steps: nat,
) -> (taken: nat)
    requires
        run_alone(
            evaluated(value, defining(environment, name, store), store.allocate(None)).0,
            evaluated(value, defining(environment, name, store), store.allocate(None)).1,
            steps,
        ).0 is Complete,
        run_alone(
            evaluated(value, defining(environment, name, store), store.allocate(None)).0,
            evaluated(value, defining(environment, name, store), store.allocate(None)).1,
            steps,
        ).1.cells.len() <= usize::MAX,
    ensures
        run_alone(
            native_called(
                NativeMacro::Def,
                seq![Value::Symbol(name), value],
                environment,
                store,
            ).0,
            native_called(
                NativeMacro::Def,
                seq![Value::Symbol(name), value],
                environment,
                store,
            ).1,
            taken,
        ).0 == ProcessModel::Complete(
            Value::Definition(
                name,
                Box::new(
                    run_alone(
                        evaluated(
                            value,
                            defining(environment, name, store),
                            store.allocate(None),
                        ).0,
                        evaluated(
                            value,
                            defining(environment, name, store),
                            store.allocate(None),
                        ).1,
                        steps,
                    ).0->Complete_0,
                ),
            ),
        ),
        lookup(
            defining(environment, name, store),
            name,
            run_alone(
                native_called(
                    NativeMacro::Def,
                    seq![Value::Symbol(name), value],
                    environment,
                    store,
                ).0,
                native_called(
                    NativeMacro::Def,
                    seq![Value::Symbol(name), value],
                    environment,
                    store,
                ).1,
                taken,
            ).1,
        ) == Some(
            run_alone(
                evaluated(value, defining(environment, name, store), store.allocate(None)).0,
                evaluated(value, defining(environment, name, store), store.allocate(None)).1,
                steps,
            ).0->Complete_0,
        ),
{
    let cell = store.cells.len();
    let child = defining(environment, name, store);
    let (evaluation, after) = evaluated(value, child, store.allocate(None));
    let (done, last) = run_alone(evaluation, after, steps);
    lemma_evaluated_extends(value, child, store.allocate(None));
    lemma_run_alone_extends(evaluation, after, steps);
    assert(after.cells[cell as int] == store.allocate(None).cells[cell as int]);
    lemma_evaluated_avoids(value, child, store.allocate(None), cell);
    lemma_run_alone_avoids(evaluation, after, steps, cell);
    let taken = lemma_chain_hands_over(
        evaluation,
        ContinuationModel::Provide(name, child),
        after,
        steps,
    );
    taken
}

} // verus!

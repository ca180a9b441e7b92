//! Evaluation: what an expression does in an environment, what a function
//! does with its arguments, what a macro makes of its argument syntax, and
//! how a quoted value is rebuilt.
//!
//! None of these runs a program to its end. Each does the first unit of the
//! work in the call and returns the process that does the rest; stepping
//! that process is the scheduler's business. What a call does is bounded by
//! the size of the expression that it is given: whatever could lead back to
//! that expression, such as the body of a function or macro that is found in
//! the store, waits for a step of the process.

use crate::environment::{
    binding_models, extended, fits, lemma_extended_extends, lemma_extends_in_two,
    lemma_keeps_in_two, lookup, paired,
    provided, Environment, Store, StoreModel,
};
use crate::errors::{
    argument_error, error, error_value, error_with_message, failed, failed_argument,
    failed_lookup, not_found_error,
};
use crate::expressions::{
    copy_names, models, texts, NativeMacro, RuntimeExpression, Value,
};
use crate::persistent::Slots;
use crate::process::{
    began, began_tco, chained, complete_in_turn, lemma_chain_hands_over,
    lemma_in_sequence_keeps_order, process_models, run_alone, sequenced, sequenced_tco, stepped,
    Continuation, ContinuationModel, Process, ProcessModel, Stepable, StepableModel,
};
use crate::standard_library::{call_builtin, called};
use crate::standard_library::matching::{does_match, matched};
use vstd::prelude::*;

verus! {

/// One process for each expression, which evaluates it in `environment` when
/// it is stepped.
pub open spec fn deferred_each(expressions: Seq<Value>, environment: Slots) -> Seq<ProcessModel> {
    Seq::new(
        expressions.len(),
        |i: int| ProcessModel::Running(StepableModel::Evaluate(expressions[i], environment)),
    )
}

/// Whether the value can be called as a function.
pub open spec fn callable(value: Value) -> bool {
    value is Function || value is BuiltinFunction
}

/// The names of the symbols, where every value is a symbol.
pub open spec fn symbol_names(values: Seq<Value>) -> Option<Seq<Seq<char>>> {
    if forall|i: int| 0 <= i < values.len() ==> (#[trigger] values[i]) is Symbol {
        Some(Seq::new(values.len(), |i: int| values[i]->Symbol_0))
    } else {
        None
    }
}

/// What `Fn` and `Macro` do: `closure` builds the function or the macro from
/// the names of the parameters and the body.
pub open spec fn closed(
    arguments: Seq<Value>,
    closure: spec_fn(Seq<Seq<char>>, Seq<Value>) -> Value,
    not_two: Seq<char>,
    not_a_list: Seq<char>,
    not_symbols: Seq<char>,
) -> ProcessModel {
    if arguments.len() == 2 {
        match arguments[0] {
            Value::List(parameters) => match symbol_names(parameters) {
                Some(names) => ProcessModel::Complete(closure(names, seq![arguments[1]])),
                None => failed_argument(not_symbols),
            },
            _ => failed_argument(not_a_list),
        }
    } else {
        failed_argument(not_two)
    }
}

/// What a macro that was written in the language makes of the syntax of its
/// arguments, before any step is made: its parameters are bound to the
/// arguments, as far as there is an argument for a parameter, in a child of
/// the environment that it closed over, and its body waits there as a
/// sequence of which the last result is the expansion.
pub open spec fn expanded_at_rest(
    parameters: Seq<Seq<char>>,
    closed_over: Slots,
    body: Seq<Value>,
    arguments: Seq<Value>,
    store: StoreModel,
) -> (ProcessModel, StoreModel) {
    if body.len() == 0 {
        (failed("invalid-macro-expand"@, "The macro has no body"@), store)
    } else {
        let bindings = paired(parameters, arguments);
        let (child, cells) = extended(closed_over, bindings, bindings.len(), store);
        (sequenced_tco(deferred_each(body, child)), cells)
    }
}

/// What `eval` does, by the shape of the expression.
///
/// - A tuple with a symbol as its tag is a call: the symbol is looked up,
///   and where it is bound to something that can be called, the arguments
///   are evaluated one after the other and the function is applied to the
///   list of their values. A symbol that is not bound, or is bound to a value
///   that cannot be called, is an error.
/// - A tuple with a keyword as its tag is data: the arguments are evaluated
///   and the tuple is built again around their values. A tuple with any other
///   tag is an error.
/// - A macro call looks the macro up. A native macro is run on the syntax of
///   the arguments, and what it returns is the result. A macro that was
///   written in the language is expanded, and its expansion is evaluated in
///   the environment of the call. No macro under the name is an error.
/// - A list evaluates its items one after the other and is built again around
///   their values.
/// - A symbol evaluates to the value of its name, and is an error where the
///   name has none.
/// - Everything else evaluates to itself.
///
/// The call does the first unit of this work and returns the process that
/// does the rest. Of the arguments of a tuple the first is evaluated in the
/// call and the others wait for their turn, which is the first unit of work
/// of the sequence over them. The items of a list are all evaluated in the
/// call, one after the other. Two things are left to the first step of the
/// process: the step of a first item that is still running after its
/// evaluation, and the first step of the body of a macro that was written
/// in the language and has more than one expression. Either could lead back
/// to the expression that is being evaluated, so that the call would not
/// return.
pub open spec fn evaluated(expression: Value, environment: Slots, store: StoreModel) -> (
    ProcessModel,
    StoreModel,
)
    decreases expression, 0nat,
{
    match expression {
        Value::TaggedTuple(tag, arguments) => match *tag {
            Value::Symbol(name) => match lookup(environment, name, store) {
                Some(function) => if callable(function) {
                    let (sequence, after) = arguments_begun(arguments, environment, store);
                    (chained(sequence, ContinuationModel::Apply(function)), after)
                } else {
                    (
                        failed(
                            "invalid-application"@,
                            "You've called an invalid value as a function"@,
                        ),
                        store,
                    )
                },
                None => (failed_lookup("No function '"@ + name + "' found"@), store),
            },
            Value::Keyword(_) => {
                let (sequence, after) = arguments_begun(arguments, environment, store);
                (chained(sequence, ContinuationModel::Tag(*tag)), after)
            },
            _ => (
                failed("invalid-application"@, "You've called an invalid value as a function"@),
                store,
            ),
        },
        Value::MacroCall(name, arguments) => match lookup(environment, name, store) {
            Some(Value::Macro(parameters, closed_over, body)) => {
                let (expansion, cells) = expanded_at_rest(
                    parameters,
                    closed_over,
                    body,
                    arguments,
                    store,
                );
                (chained(expansion, ContinuationModel::Evaluate(environment)), cells)
            },
            Some(Value::BuiltinMacro(_, native)) => native_called(
                native,
                arguments,
                environment,
                store,
            ),
            _ => (failed_lookup("No macro of that name found"@), store),
        },
        Value::List(items) => {
            let (processes, after) = evaluated_each(items, environment, store, items.len());
            (sequenced(processes), after)
        },
        Value::Symbol(name) => match lookup(environment, name, store) {
            Some(value) => (ProcessModel::Complete(value), store),
            None => (failed_lookup(name + " not found"@), store),
        },
        _ => (ProcessModel::Complete(expression), store),
    }
}

/// The sequence over the evaluations of the arguments after its first unit
/// of work: the first argument has been evaluated, and the others wait.
pub open spec fn arguments_begun(arguments: Seq<Value>, environment: Slots, store: StoreModel) -> (
    ProcessModel,
    StoreModel,
)
    decreases arguments, 0nat,
{
    if arguments.len() == 0 {
        (ProcessModel::Complete(Value::List(Seq::empty())), store)
    } else {
        let (first, after) = evaluated(arguments[0], environment, store);
        (
            ProcessModel::Running(
                StepableModel::Sequence(
                    seq![first] + deferred_each(arguments.skip(1), environment),
                    Seq::empty(),
                ),
            ),
            after,
        )
    }
}

/// What the evaluations of the first `count` items make, one after the
/// other, each in the store that the one before it left.
pub open spec fn evaluated_each(
    items: Seq<Value>,
    environment: Slots,
    store: StoreModel,
    count: nat,
) -> (Seq<ProcessModel>, StoreModel)
    decreases items, count,
{
    if count == 0 || count > items.len() {
        (Seq::empty(), store)
    } else {
        let (before, cells) = evaluated_each(items, environment, store, (count - 1) as nat);
        let (process, after) = evaluated(items[count - 1], environment, cells);
        (before.push(process), after)
    }
}

/// What calling a native macro with the given argument syntax does.
///
/// - `Def` prepares the name in a child of the environment, evaluates the
///   value there, and lets the continuation fill the cell.
/// - `Match` evaluates the value and lets the continuation try the cases.
/// - `Fn` and `Macro` close over the environment.
/// - `Quote` quotes its argument.
pub open spec fn native_called(
    native: NativeMacro,
    arguments: Seq<Value>,
    environment: Slots,
    store: StoreModel,
) -> (ProcessModel, StoreModel)
    decreases arguments, 0nat,
{
    match native {
        NativeMacro::Def => if arguments.len() == 2 {
            match arguments[0] {
                Value::Symbol(name) | Value::String(name) => {
                    let child = environment.insert(name, store.cells.len() as usize);
                    let (value, after) = evaluated(arguments[1], child, store.allocate(None));
                    (chained(value, ContinuationModel::Provide(name, child)), after)
                },
                _ => (failed_argument("Def takes a symbol and a value"@), store),
            }
        } else {
            (failed_argument("Def takes exactly 2 arguments"@), store)
        },
        NativeMacro::Match => if arguments.len() == 2 {
            let (value, after) = evaluated(arguments[0], environment, store);
            (chained(value, ContinuationModel::Match(arguments[1], environment)), after)
        } else {
            (failed_argument("Match takes exactly 2 arguments"@), store)
        },
        NativeMacro::Fn => (
            closed(
                arguments,
                |names: Seq<Seq<char>>, body: Seq<Value>| Value::Function(names, environment, body),
                "Fn takes exactly 2 arguments"@,
                "Fn takes a list of params and a single body expression"@,
                "Func params must be ValueNames"@,
            ),
            store,
        ),
        NativeMacro::Macro => (
            closed(
                arguments,
                |names: Seq<Seq<char>>, body: Seq<Value>| Value::Macro(names, environment, body),
                "Macro takes exactly 2 arguments"@,
                "Macro takes a list of params and a single body expression"@,
                "Macro params must be symbols"@,
            ),
            store,
        ),
        NativeMacro::Quote => if arguments.len() == 1 {
            quoted(arguments[0], environment, store)
        } else {
            (failed_argument("Quote takes exactly 1 argument"@), store)
        },
    }
}

/// What quoting the first `count` values makes, one after the other, each in
/// the store that the one before it left.
pub open spec fn quoted_each(
    values: Seq<Value>,
    environment: Slots,
    store: StoreModel,
    count: nat,
) -> (Seq<ProcessModel>, StoreModel)
    decreases values, count,
{
    if count == 0 || count > values.len() {
        (Seq::empty(), store)
    } else {
        let (before, cells) = quoted_each(values, environment, store, (count - 1) as nat);
        let (process, after) = quoted(values[count - 1], environment, cells);
        (before.push(process), after)
    }
}

/// What `quote` does: lists, tuples, macro calls, definitions and the bodies
/// of functions and macros are taken apart, their parts are quoted in the
/// call, one after the other, and they are built again around the results;
/// the tag of a tuple, and every value that has no parts, stays as it is. A
/// call of `Unquote` is not rebuilt: its first argument is evaluated in the
/// environment of the quotation, in the call, and the value stands where the
/// call stood. The parts of a function or macro are quoted in the
/// environment that it closed over. As in `eval`, a first part that is still
/// running after the call has its next step with the first step of the
/// process.
pub open spec fn quoted(value: Value, environment: Slots, store: StoreModel) -> (
    ProcessModel,
    StoreModel,
)
    decreases value, 0nat,
{
    match value {
        Value::Function(parameters, closed_over, body) => {
            let (parts, after) = quoted_each(body, closed_over, store, body.len());
            (
                chained(sequenced(parts), ContinuationModel::Function(parameters, closed_over)),
                after,
            )
        },
        Value::TaggedTuple(tag, values) => {
            let (parts, after) = quoted_each(values, environment, store, values.len());
            (chained(sequenced(parts), ContinuationModel::Tag(*tag)), after)
        },
        Value::List(values) => {
            let (parts, after) = quoted_each(values, environment, store, values.len());
            (sequenced(parts), after)
        },
        Value::Macro(parameters, closed_over, body) => {
            let (parts, after) = quoted_each(body, closed_over, store, body.len());
            (chained(sequenced(parts), ContinuationModel::Macro(parameters, closed_over)), after)
        },
        Value::MacroCall(name, arguments) => if name == "Unquote"@ {
            if arguments.len() > 0 {
                evaluated(arguments[0], environment, store)
            } else {
                (failed_argument("Unquote takes exactly 1 argument"@), store)
            }
        } else {
            let (parts, after) = quoted_each(arguments, environment, store, arguments.len());
            (chained(sequenced(parts), ContinuationModel::MacroCall(name)), after)
        },
        Value::Definition(name, value) => {
            let (part, after) = quoted(*value, environment, store);
            (chained(part, ContinuationModel::Definition(name)), after)
        },
        _ => (ProcessModel::Complete(value), store),
    }
}

/// The body of a function or macro after its first unit of work. A single
/// expression waits to be evaluated, and is the whole of it. Of more, the
/// first has been evaluated, and the others wait behind it; only the result
/// of the last counts.
pub open spec fn body_begun(body: Seq<Value>, environment: Slots, store: StoreModel) -> (
    ProcessModel,
    StoreModel,
) {
    if body.len() == 1 {
        (ProcessModel::Running(StepableModel::Evaluate(body[0], environment)), store)
    } else {
        let (first, after) = evaluated(body[0], environment, store);
        (
            ProcessModel::Running(
                StepableModel::SequenceTco(
                    Box::new(first),
                    deferred_each(body.skip(1), environment),
                ),
            ),
            after,
        )
    }
}

/// What calling a function that was written in the language does: each
/// parameter is bound to its argument in a child of the environment that
/// the function closed over, and the body is run there as `body_begun`
/// says, its last expression in tail position.
pub open spec fn applied_function(
    parameters: Seq<Seq<char>>,
    environment: Slots,
    body: Seq<Value>,
    arguments: Seq<Value>,
    store: StoreModel,
) -> (ProcessModel, StoreModel) {
    if parameters.len() != arguments.len() {
        (failed_argument("The function was called with the wrong number of arguments"@), store)
    } else if body.len() == 0 {
        (failed("invalid-application"@, "The function has no body"@), store)
    } else {
        let (child, cells) = extended(
            environment,
            paired(parameters, arguments),
            parameters.len(),
            store,
        );
        body_begun(body, child, cells)
    }
}

/// What `apply` does: a native function is called, a function that was
/// written in the language is applied as `applied_function` says, and any
/// other value is no function, which is an error.
pub open spec fn applied(function: Value, arguments: Seq<Value>, store: StoreModel) -> (
    ProcessModel,
    StoreModel,
) {
    match function {
        Value::BuiltinFunction(builtin) => called(builtin, arguments, store),
        Value::Function(parameters, environment, body) => applied_function(
            parameters,
            environment,
            body,
            arguments,
            store,
        ),
        _ => (
            failed("invalid-application"@, "You've called an invalid value as a function"@),
            store,
        ),
    }
}

/// What `macro_expand` does. A native macro is run on the syntax of the
/// arguments. A macro written in the language binds its parameters to the
/// argument syntax, as far as there is an argument for a parameter, and runs
/// its body as `body_begun` says; the result of the body is the expansion.
pub open spec fn expanded(
    macro_value: Value,
    arguments: Seq<Value>,
    environment: Slots,
    store: StoreModel,
) -> (ProcessModel, StoreModel) {
    match macro_value {
        Value::BuiltinMacro(_, native) => native_called(native, arguments, environment, store),
        Value::Macro(parameters, closed_over, body) => if body.len() == 0 {
            (failed("invalid-macro-expand"@, "The macro has no body"@), store)
        } else {
            let bindings = paired(parameters, arguments);
            let (child, cells) = extended(closed_over, bindings, bindings.len(), store);
            body_begun(body, child, cells)
        },
        _ => (failed("invalid-macro-expand"@, "Not a macro"@), store),
    }
}

/// What `Match` does once its value is known: the cases from `start` on are
/// tried in order, a case being a pattern and the body that follows it. The
/// body of the first pattern that matches is evaluated in the environment
/// extended by what the pattern bound.
pub open spec fn chosen(
    cases: Seq<Value>,
    value: Value,
    environment: Slots,
    store: StoreModel,
    start: int,
) -> (ProcessModel, StoreModel)
    decreases cases.len() - start,
{
    if 0 <= start && start + 1 < cases.len() {
        match matched(cases[start], value) {
            Some(bindings) => {
                let (child, cells) = extended(environment, bindings, bindings.len(), store);
                evaluated(cases[start + 1], child, cells)
            },
            None => chosen(cases, value, environment, store, start + 2),
        }
    } else {
        (ProcessModel::Complete(error_value("no-match-found"@)), store)
    }
}

/// The first case that matches wins: where the pattern of one case matches
/// and the patterns of all cases before it do not, `Match` evaluates the body
/// of that case, in the environment extended by what its pattern bound,
/// whatever the cases behind it are.
pub proof fn lemma_first_match_wins(
    cases: Seq<Value>,
    value: Value,
    environment: Slots,
    store: StoreModel,
    winner: int,
)
    requires
        0 <= winner,
        2 * winner + 1 < cases.len(),
        matched(cases[2 * winner], value) is Some,
        forall|earlier: int|
            0 <= earlier < 2 * winner && earlier % 2 == 0 ==> matched(
                #[trigger] cases[earlier],
                value,
            ) is None,
    ensures
        chosen(cases, value, environment, store, 0) == evaluated(
            cases[2 * winner + 1],
            extended(
                environment,
                matched(cases[2 * winner], value)->Some_0,
                matched(cases[2 * winner], value)->Some_0.len(),
                store,
            ).0,
            extended(
                environment,
                matched(cases[2 * winner], value)->Some_0,
                matched(cases[2 * winner], value)->Some_0.len(),
                store,
            ).1,
        ),
{
    lemma_cases_before_the_winner(cases, value, environment, store, winner, 0);
}

proof fn lemma_cases_before_the_winner(
    cases: Seq<Value>,
    value: Value,
    environment: Slots,
    store: StoreModel,
    winner: int,
    tried: int,
)
    requires
        0 <= tried <= winner,
        2 * winner + 1 < cases.len(),
        forall|earlier: int|
            0 <= earlier < 2 * winner && earlier % 2 == 0 ==> matched(
                #[trigger] cases[earlier],
                value,
            ) is None,
    ensures
        chosen(cases, value, environment, store, 2 * tried) == chosen(
            cases,
            value,
            environment,
            store,
            2 * winner,
        ),
    decreases winner - tried,
{
    if tried < winner {
        assert(matched(cases[2 * tried], value) is None);
        lemma_cases_before_the_winner(cases, value, environment, store, winner, tried + 1);
    }
}

/// Where no pattern matches, `Match` completes with the error
/// `no-match-found` and leaves the store as it was.
pub proof fn lemma_no_match_is_an_error(
    cases: Seq<Value>,
    value: Value,
    environment: Slots,
    store: StoreModel,
)
    requires
        forall|pattern: int|
            0 <= pattern < cases.len() && pattern % 2 == 0 ==> matched(
                #[trigger] cases[pattern],
                value,
            ) is None,
    ensures
        chosen(cases, value, environment, store, 0) == (
            ProcessModel::Complete(error_value("no-match-found"@)),
            store,
        ),
{
    lemma_no_case_from(cases, value, environment, store, 0);
}

proof fn lemma_no_case_from(
    cases: Seq<Value>,
    value: Value,
    environment: Slots,
    store: StoreModel,
    tried: int,
)
    requires
        0 <= tried,
        forall|pattern: int|
            0 <= pattern < cases.len() && pattern % 2 == 0 ==> matched(
                #[trigger] cases[pattern],
                value,
            ) is None,
    ensures
        chosen(cases, value, environment, store, 2 * tried) == (
            ProcessModel::Complete(error_value("no-match-found"@)),
            store,
        ),
    decreases cases.len() - 2 * tried,
{
    if 2 * tried + 1 < cases.len() {
        assert(matched(cases[2 * tried], value) is None);
        lemma_no_case_from(cases, value, environment, store, tried + 1);
    }
}

/// What a continuation that expects a list of results does with a value that
/// is none.
pub open spec fn failed_results() -> ProcessModel {
    failed_argument("The results of a sequence must come as a list"@)
}

/// What a continuation does with the result that it is handed. A
/// continuation that stands behind a sequence takes the results as a list,
/// and any other value is an error to it.
pub open spec fn resumed(continuation: ContinuationModel, value: Value, store: StoreModel) -> (
    ProcessModel,
    StoreModel,
) {
    match continuation {
        ContinuationModel::Apply(function) => match value {
            Value::List(arguments) => applied(function, arguments, store),
            _ => (failed_results(), store),
        },
        ContinuationModel::Tag(tag) => match value {
            Value::List(arguments) => (
                ProcessModel::Complete(Value::TaggedTuple(Box::new(tag), arguments)),
                store,
            ),
            _ => (failed_results(), store),
        },
        ContinuationModel::Evaluate(environment) => evaluated(value, environment, store),
        ContinuationModel::Function(parameters, environment) => match value {
            Value::List(body) => (
                ProcessModel::Complete(Value::Function(parameters, environment, body)),
                store,
            ),
            _ => (failed_results(), store),
        },
        ContinuationModel::Macro(parameters, environment) => match value {
            Value::List(body) => (
                ProcessModel::Complete(Value::Macro(parameters, environment, body)),
                store,
            ),
            _ => (failed_results(), store),
        },
        ContinuationModel::MacroCall(name) => match value {
            Value::List(arguments) => (
                ProcessModel::Complete(Value::MacroCall(name, arguments)),
                store,
            ),
            _ => (failed_results(), store),
        },
        ContinuationModel::Definition(name) => (
            ProcessModel::Complete(Value::Definition(name, Box::new(value))),
            store,
        ),
        ContinuationModel::Provide(name, environment) => (
            ProcessModel::Complete(Value::Definition(name, Box::new(value))),
            provided(environment, name, value, store).1,
        ),
        ContinuationModel::Match(cases, environment) => match cases {
            Value::List(cases) => if cases.len() % 2 != 0 {
                (
                    failed_argument(
                        "Match cases must be a list with an even number of elements"@,
                    ),
                    store,
                )
            } else {
                chosen(cases, value, environment, store, 0)
            },
            _ => (failed_argument("Match takes a value and a list of cases"@), store),
        },
    }
}

/// The process that evaluates `expression` in `environment` once it is
/// stepped.
pub fn defer(expression: RuntimeExpression, environment: Environment) -> (process: Process)
    ensures
        process@ == ProcessModel::Running(StepableModel::Evaluate(expression@, environment@)),
{
    let stepable = Stepable::Evaluate(expression, environment);
    proof {
        assert(stepable@ == StepableModel::Evaluate(expression@, environment@));
    }
    Process::Running(stepable)
}

/// One process for each expression, which evaluates it in `environment` once
/// it is stepped.
pub fn defer_each(expressions: &Vec<RuntimeExpression>, environment: &Environment) -> (processes:
    Vec<Process>)
    ensures
        process_models(processes@) == deferred_each(models(expressions@), environment@),
        processes.len() == expressions.len(),
{
    let mut processes: Vec<Process> = Vec::new();
    let mut i: usize = 0;
    while i < expressions.len()
        invariant
            i <= expressions.len(),
            processes.len() == i,
            forall|k: int|
                0 <= k < i ==> (#[trigger] processes[k])@ == ProcessModel::Running(
                    StepableModel::Evaluate(expressions[k]@, environment@),
                ),
        decreases expressions.len() - i,
    {
        processes.push(defer(expressions[i].clone(), environment.clone()));
        i += 1;
    }
    proof {
        assert(process_models(processes@) =~= deferred_each(
            models(expressions@),
            environment@,
        ));
    }
    processes
}

/// The pairs of names and values, as far as both lists go.
pub fn pair_up(names: &Vec<String>, values: &Vec<RuntimeExpression>) -> (pairs: Vec<
    (String, RuntimeExpression),
>)
    ensures
        binding_models(pairs@) == paired(texts(names@), models(values@)),
        pairs.len() == (if names.len() <= values.len() {
            names.len()
        } else {
            values.len()
        }),
{
    let mut pairs: Vec<(String, RuntimeExpression)> = Vec::new();
    let mut i: usize = 0;
    while i < names.len() && i < values.len()
        invariant
            i <= names.len(),
            i <= values.len(),
            pairs.len() == i,
            forall|k: int|
                0 <= k < i ==> (#[trigger] pairs[k]).0@ == names[k]@ && pairs[k].1@ == values[k]@,
        decreases names.len() - i,
    {
        pairs.push((names[i].clone(), values[i].clone()));
        i += 1;
    }
    proof {
        assert(binding_models(pairs@) =~= paired(texts(names@), models(values@)));
    }
    pairs
}

/// The names of the symbols, where every expression is a symbol.
fn names_of(values: &Vec<RuntimeExpression>) -> (names: Option<Vec<String>>)
    ensures
        match names {
            Some(names) => symbol_names(models(values@)) == Some(texts(names@)),
            None => symbol_names(models(values@)) is None,
        },
{
    let mut names: Vec<String> = Vec::new();
    let mut i: usize = 0;
    while i < values.len()
        invariant
            i <= values.len(),
            names.len() == i,
            forall|k: int| 0 <= k < i ==> #[trigger] values[k]@ == Value::Symbol(names[k]@),
        decreases values.len() - i,
    {
        match &values[i] {
            RuntimeExpression::Symbol(name) => {
                names.push(name.clone());
            },
            _ => {
                proof {
                    assert(!(models(values@)[i as int] is Symbol));
                }
                return None;
            },
        }
        i += 1;
    }
    proof {
        assert forall|k: int| 0 <= k < values.len() implies (#[trigger] models(
            values@,
        )[k]) is Symbol by {
            assert(values[k]@ == Value::Symbol(names[k]@));
        }
        assert(symbol_names(models(values@))->Some_0 =~= texts(names@)) by {
            assert forall|k: int| 0 <= k < values.len() implies symbol_names(
                models(values@),
            )->Some_0[k] == texts(names@)[k] by {
                assert(values[k]@ == Value::Symbol(names[k]@));
            }
        }
    }
    Some(names)
}

/// Binds the parameters to the arguments, as far as both go, in a child of
/// the environment.
fn bind(
    parameters: &Vec<String>,
    environment: &Environment,
    arguments: &Vec<RuntimeExpression>,
    store: &mut Store,
) -> (child: Environment)
    ensures
        (child@, final(store)@) == extended(
            environment@,
            paired(texts(parameters@), models(arguments@)),
            paired(texts(parameters@), models(arguments@)).len(),
            old(store)@,
        ),
{
    let bindings = pair_up(parameters, arguments);
    environment.clone().extend(&bindings, store)
}

/// One process for each expression from `start` on, which evaluates it in
/// `environment` once it is stepped.
fn defer_from(
    expressions: &Vec<RuntimeExpression>,
    start: usize,
    environment: &Environment,
) -> (processes: Vec<Process>)
    requires
        start <= expressions.len(),
    ensures
        process_models(processes@) == deferred_each(
            models(expressions@).skip(start as int),
            environment@,
        ),
{
    let mut processes: Vec<Process> = Vec::new();
    let mut i: usize = start;
    while i < expressions.len()
        invariant
            start <= i <= expressions.len(),
            processes.len() == i - start,
            forall|k: int|
                0 <= k < processes.len() ==> (#[trigger] processes[k])@ == ProcessModel::Running(
                    StepableModel::Evaluate(expressions[start + k]@, environment@),
                ),
        decreases expressions.len() - i,
    {
        processes.push(defer(expressions[i].clone(), environment.clone()));
        i += 1;
    }
    proof {
        assert(process_models(processes@) =~= deferred_each(
            models(expressions@).skip(start as int),
            environment@,
        ));
    }
    processes
}

/// Begins to run the body of a function or macro in `environment`.
fn begin_body(
    body: &Vec<RuntimeExpression>,
    environment: &Environment,
    store: &mut Store,
) -> (process: Process)
    requires
        body.len() > 0,
    ensures
        (process@, final(store)@) == body_begun(models(body@), environment@, old(store)@),
{
    if body.len() == 1 {
        defer(body[0].clone(), environment.clone())
    } else {
        let first = eval_borrowed(&body[0], environment, store);
        let rest = defer_from(body, 1, environment);
        let stepable = Stepable::SequenceTco(Box::new(first), rest);
        proof {
            assert(stepable@ == StepableModel::SequenceTco(
                Box::new(first@),
                process_models(rest@),
            ));
        }
        Process::Running(stepable)
    }
}

/// Calls a function that was written in the language.
pub fn apply_function(
    parameters: &Vec<String>,
    environment: &Environment,
    body: &Vec<RuntimeExpression>,
    arguments: &Vec<RuntimeExpression>,
    store: &mut Store,
) -> (process: Process)
    ensures
        (process@, final(store)@) == applied_function(
            texts(parameters@),
            environment@,
            models(body@),
            models(arguments@),
            old(store)@,
        ),
        final(store)@.extends(old(store)@),
{
    proof {
        lemma_applied_function_extends(
            texts(parameters@),
            environment@,
            models(body@),
            models(arguments@),
            store@,
        );
    }
    if parameters.len() != arguments.len() {
        argument_error("The function was called with the wrong number of arguments")
    } else if body.len() == 0 {
        error_with_message("invalid-application", "The function has no body")
    } else {
        let child = bind(parameters, environment, arguments, store);
        begin_body(body, &child, store)
    }
}

/// Calls `function` with arguments that have been evaluated.
pub fn apply(
    function: RuntimeExpression,
    args: Vec<RuntimeExpression>,
    store: &mut Store,
) -> (process: Process)
    ensures
        (process@, final(store)@) == applied(function@, models(args@), old(store)@),
        final(store)@.extends(old(store)@),
{
    proof {
        lemma_applied_extends(function@, models(args@), store@);
    }
    match &function {
        RuntimeExpression::BuiltinFunction(builtin) => call_builtin(*builtin, &args, store),
        RuntimeExpression::Function(parameters, environment, body) => apply_function(
            parameters,
            environment,
            body,
            &args,
            store,
        ),
        _ => error_with_message(
            "invalid-application",
            "You've called an invalid value as a function",
        ),
    }
}

/// Expands a macro call: runs the macro on the syntax of its arguments, which
/// are not evaluated.
pub fn macro_expand(
    macro_expression: RuntimeExpression,
    args: Vec<RuntimeExpression>,
    environment: Environment,
    store: &mut Store,
) -> (process: Process)
    ensures
        (process@, final(store)@) == expanded(
            macro_expression@,
            models(args@),
            environment@,
            old(store)@,
        ),
        final(store)@.extends(old(store)@),
        fits(environment@, old(store)@) ==> fits(environment@, final(store)@),
{
    proof {
        reveal_with_fuel(RuntimeExpression::model, 2);
        lemma_expanded_extends(macro_expression@, models(args@), environment@, store@);
    }
    match &macro_expression {
        RuntimeExpression::BuiltinMacro(_, native) => call_native_macro(
            *native,
            &args,
            &environment,
            store,
        ),
        RuntimeExpression::Macro(parameters, closed_over, body) => {
            if body.len() == 0 {
                error_with_message("invalid-macro-expand", "The macro has no body")
            } else {
                let child = bind(parameters, closed_over, &args, store);
                begin_body(body, &child, store)
            }
        },
        _ => error_with_message("invalid-macro-expand", "Not a macro"),
    }
}

/// Rebuilds `value` without evaluating it, but for the arguments of calls to
/// `Unquote`, which are evaluated in `env` and stand in for the call.
pub fn quote(value: RuntimeExpression, env: Environment, store: &mut Store) -> (process: Process)
    ensures
        (process@, final(store)@) == quoted(value@, env@, old(store)@),
        final(store)@.extends(old(store)@),
        fits(env@, old(store)@) ==> fits(env@, final(store)@),
{
    proof {
        lemma_quoted_extends(value@, env@, store@);
    }
    quote_borrowed(&value, &env, store)
}

fn quote_borrowed(
    value: &RuntimeExpression,
    environment: &Environment,
    store: &mut Store,
) -> (process: Process)
    ensures
        (process@, final(store)@) == quoted(value@, environment@, old(store)@),
    decreases value, 0nat,
{
    proof {
        reveal_with_fuel(RuntimeExpression::model, 2);
    }
    match value {
        RuntimeExpression::Function(parameters, closed_over, body) => {
            let parts = quote_each(body, closed_over, store);
            Process::in_sequence(parts).and_then(
                Continuation::Function(copy_names(parameters), closed_over.clone()),
            )
        },
        RuntimeExpression::TaggedTuple(tag, values) => {
            let parts = quote_each(values, environment, store);
            Process::in_sequence(parts).and_then(Continuation::Tag(tag.duplicate()))
        },
        RuntimeExpression::List(values) => {
            let parts = quote_each(values, environment, store);
            Process::in_sequence(parts)
        },
        RuntimeExpression::Macro(parameters, closed_over, body) => {
            let parts = quote_each(body, closed_over, store);
            Process::in_sequence(parts).and_then(
                Continuation::Macro(copy_names(parameters), closed_over.clone()),
            )
        },
        RuntimeExpression::MacroCall(name, arguments) => {
            if *name == String::from_str("Unquote") {
                if arguments.len() > 0 {
                    eval_borrowed(&arguments[0], environment, store)
                } else {
                    argument_error("Unquote takes exactly 1 argument")
                }
            } else {
                let parts = quote_each(arguments, environment, store);
                Process::in_sequence(parts).and_then(Continuation::MacroCall(name.clone()))
            }
        },
        RuntimeExpression::Definition(name, value) => {
            let part = quote_borrowed(value, environment, store);
            part.and_then(Continuation::Definition(name.clone()))
        },
        _ => Process::Complete(value.clone()),
    }
}

fn quote_each(
    values: &Vec<RuntimeExpression>,
    environment: &Environment,
    store: &mut Store,
) -> (processes: Vec<Process>)
    ensures
        (process_models(processes@), final(store)@) == quoted_each(
            models(values@),
            environment@,
            old(store)@,
            values.len() as nat,
        ),
    decreases values, values.len(),
{
    let mut processes: Vec<Process> = Vec::new();
    let mut i: usize = 0;
    proof {
        assert(process_models(processes@) =~= Seq::empty());
    }
    while i < values.len()
        invariant
            i <= values.len(),
            (process_models(processes@), store@) == quoted_each(
                models(values@),
                environment@,
                old(store)@,
                i as nat,
            ),
        decreases values.len() - i,
    {
        let process = quote_borrowed(&values[i], environment, store);
        proof {
            crate::process::lemma_process_models_push(processes@, process);
        }
        processes.push(process);
        i += 1;
    }
    processes
}

/// Evaluates `expression` in `environment`.
pub fn eval(expression: RuntimeExpression, environment: Environment, store: &mut Store) -> (process:
    Process)
    ensures
        (process@, final(store)@) == evaluated(expression@, environment@, old(store)@),
        final(store)@.extends(old(store)@),
        fits(environment@, old(store)@) ==> fits(environment@, final(store)@),
{
    proof {
        lemma_evaluated_extends(expression@, environment@, store@);
    }
    eval_borrowed(&expression, &environment, store)
}

fn eval_each(
    items: &Vec<RuntimeExpression>,
    environment: &Environment,
    store: &mut Store,
) -> (processes: Vec<Process>)
    ensures
        (process_models(processes@), final(store)@) == evaluated_each(
            models(items@),
            environment@,
            old(store)@,
            items.len() as nat,
        ),
    decreases items, items.len(),
{
    let mut processes: Vec<Process> = Vec::new();
    let mut i: usize = 0;
    proof {
        assert(process_models(processes@) =~= Seq::empty());
    }
    while i < items.len()
        invariant
            i <= items.len(),
            (process_models(processes@), store@) == evaluated_each(
                models(items@),
                environment@,
                old(store)@,
                i as nat,
            ),
        decreases items.len() - i,
    {
        let process = eval_borrowed(&items[i], environment, store);
        proof {
            crate::process::lemma_process_models_push(processes@, process);
        }
        processes.push(process);
        i += 1;
    }
    processes
}

fn begin_arguments(
    arguments: &Vec<RuntimeExpression>,
    environment: &Environment,
    store: &mut Store,
) -> (process: Process)
    ensures
        (process@, final(store)@) == arguments_begun(
            models(arguments@),
            environment@,
            old(store)@,
        ),
    decreases arguments, 0nat,
{
    let results: Vec<RuntimeExpression> = Vec::new();
    proof {
        assert(models(results@) =~= Seq::empty());
    }
    if arguments.len() == 0 {
        let value = RuntimeExpression::List(results);
        proof {
            assert(value@ == Value::List(Seq::empty()));
        }
        Process::Complete(value)
    } else {
        let first = eval_borrowed(&arguments[0], environment, store);
        let mut processes = defer_from(arguments, 1, environment);
        proof {
            crate::process::lemma_process_models_front(processes@, first);
            assert(processes@.insert(0, first) =~= seq![first] + processes@);
        }
        processes.insert(0, first);
        let stepable = Stepable::Sequence(processes, results);
        proof {
            assert(stepable@ == StepableModel::Sequence(
                process_models(processes@),
                Seq::empty(),
            ));
        }
        Process::Running(stepable)
    }
}

fn eval_borrowed(
    expression: &RuntimeExpression,
    environment: &Environment,
    store: &mut Store,
) -> (process: Process)
    ensures
        (process@, final(store)@) == evaluated(expression@, environment@, old(store)@),
    decreases expression, 0nat,
{
    proof {
        reveal_with_fuel(RuntimeExpression::model, 2);
    }
    match expression {
        RuntimeExpression::TaggedTuple(tag, arguments) => match &**tag {
            RuntimeExpression::Symbol(name) => match environment.get(name.as_str(), store) {
                Some(function) => {
                    let callable = match &function {
                        RuntimeExpression::Function(..) => true,
                        RuntimeExpression::BuiltinFunction(_) => true,
                        _ => false,
                    };
                    if callable {
                        begin_arguments(arguments, environment, store).and_then(
                            Continuation::Apply(function),
                        )
                    } else {
                        error_with_message(
                            "invalid-application",
                            "You've called an invalid value as a function",
                        )
                    }
                },
                None => {
                    let mut message = String::from_str("No function '");
                    message.append(name.as_str());
                    message.append("' found");
                    not_found_error(message.as_str())
                },
            },
            RuntimeExpression::Keyword(_) => {
                let sequence = begin_arguments(arguments, environment, store);
                sequence.and_then(Continuation::Tag(tag.duplicate()))
            },
            _ => error_with_message(
                "invalid-application",
                "You've called an invalid value as a function",
            ),
        },
        RuntimeExpression::MacroCall(name, arguments) => match environment.get(
            name.as_str(),
            store,
        ) {
            Some(found) => match &found {
                RuntimeExpression::Macro(parameters, closed_over, body) => {
                    if body.len() == 0 {
                        let failure = error_with_message(
                            "invalid-macro-expand",
                            "The macro has no body",
                        );
                        failure.and_then(Continuation::Evaluate(environment.clone()))
                    } else {
                        let child = bind(parameters, closed_over, arguments, store);
                        Process::in_sequence_tco(defer_each(body, &child)).and_then(
                            Continuation::Evaluate(environment.clone()),
                        )
                    }
                },
                RuntimeExpression::BuiltinMacro(_, native) => call_native_macro(
                    *native,
                    arguments,
                    environment,
                    store,
                ),
                _ => not_found_error("No macro of that name found"),
            },
            None => not_found_error("No macro of that name found"),
        },
        RuntimeExpression::List(items) => {
            let processes = eval_each(items, environment, store);
            Process::in_sequence(processes)
        },
        RuntimeExpression::Symbol(name) => match environment.get(name.as_str(), store) {
            Some(value) => Process::Complete(value),
            None => {
                let mut message = name.clone();
                message.append(" not found");
                not_found_error(message.as_str())
            },
        },
        _ => Process::Complete(expression.clone()),
    }
}

/// Calls a native macro with the syntax of its arguments.
pub fn call_native_macro(
    native: NativeMacro,
    arguments: &Vec<RuntimeExpression>,
    environment: &Environment,
    store: &mut Store,
) -> (process: Process)
    ensures
        (process@, final(store)@) == native_called(
            native,
            models(arguments@),
            environment@,
            old(store)@,
        ),
        final(store)@.extends(old(store)@),
    decreases arguments, 0nat,
{
    proof {
        lemma_native_called_extends(native, models(arguments@), environment@, store@);
    }
    match native {
        NativeMacro::Def => {
            if arguments.len() == 2 {
                match &arguments[0] {
                    RuntimeExpression::Symbol(name) | RuntimeExpression::String(name) => {
                        let child = environment.clone().prepare(name.clone(), store);
                        let value = eval_borrowed(&arguments[1], &child, store);
                        value.and_then(Continuation::Provide(name.clone(), child))
                    },
                    _ => argument_error("Def takes a symbol and a value"),
                }
            } else {
                argument_error("Def takes exactly 2 arguments")
            }
        },
        NativeMacro::Match => {
            if arguments.len() == 2 {
                let value = eval_borrowed(&arguments[0], environment, store);
                value.and_then(Continuation::Match(arguments[1].clone(), environment.clone()))
            } else {
                argument_error("Match takes exactly 2 arguments")
            }
        },
        NativeMacro::Fn => {
            if arguments.len() == 2 {
                match &arguments[0] {
                    RuntimeExpression::List(parameters) => match names_of(parameters) {
                        Some(names) => {
                            let mut body: Vec<RuntimeExpression> = Vec::new();
                            body.push(arguments[1].clone());
                            proof {
                                assert(models(body@) =~= seq![models(arguments@)[1]]);
                            }
                            Process::Complete(
                                RuntimeExpression::Function(names, environment.clone(), body),
                            )
                        },
                        None => argument_error("Func params must be ValueNames"),
                    },
                    _ => argument_error("Fn takes a list of params and a single body expression"),
                }
            } else {
                argument_error("Fn takes exactly 2 arguments")
            }
        },
        NativeMacro::Macro => {
            if arguments.len() == 2 {
                match &arguments[0] {
                    RuntimeExpression::List(parameters) => match names_of(parameters) {
                        Some(names) => {
                            let mut body: Vec<RuntimeExpression> = Vec::new();
                            body.push(arguments[1].clone());
                            proof {
                                assert(models(body@) =~= seq![models(arguments@)[1]]);
                            }
                            Process::Complete(
                                RuntimeExpression::Macro(names, environment.clone(), body),
                            )
                        },
                        None => argument_error("Macro params must be symbols"),
                    },
                    _ => argument_error(
                        "Macro takes a list of params and a single body expression",
                    ),
                }
            } else {
                argument_error("Macro takes exactly 2 arguments")
            }
        },
        NativeMacro::Quote => {
            if arguments.len() == 1 {
                quote_borrowed(&arguments[0], environment, store)
            } else {
                argument_error("Quote takes exactly 1 argument")
            }
        },
    }
}

fn try_cases(
    cases: &Vec<RuntimeExpression>,
    value: &RuntimeExpression,
    environment: &Environment,
    store: &mut Store,
    start: usize,
) -> (process: Process)
    ensures
        (process@, final(store)@) == chosen(
            models(cases@),
            value@,
            environment@,
            old(store)@,
            start as int,
        ),
    decreases cases.len() - start,
{
    if start < cases.len() && start + 1 < cases.len() {
        match does_match(cases[start].clone(), value.clone()) {
            Some(bindings) => {
                let child = environment.clone().extend(&bindings, store);
                eval(cases[start + 1].clone(), child, store)
            },
            None => try_cases(cases, value, environment, store, start + 2),
        }
    } else {
        error("no-match-found")
    }
}

fn fail_results() -> (process: Process)
    ensures
        process@ == failed_results(),
{
    argument_error("The results of a sequence must come as a list")
}

impl Continuation {
    /// Hands `value` to the continuation.
    pub fn resume(self, value: RuntimeExpression, store: &mut Store) -> (process: Process)
        ensures
            (process@, final(store)@) == resumed(self@, value@, old(store)@),
            final(store)@.extends(old(store)@),
    {
        proof {
            reveal_with_fuel(RuntimeExpression::model, 2);
            lemma_resumed_extends(self@, value@, store@);
        }
        match self {
            Continuation::Apply(function) => match value {
                RuntimeExpression::List(arguments) => apply(function, arguments, store),
                _ => fail_results(),
            },
            Continuation::Tag(tag) => match value {
                RuntimeExpression::List(arguments) => Process::Complete(
                    RuntimeExpression::TaggedTuple(Box::new(tag), arguments),
                ),
                _ => fail_results(),
            },
            Continuation::Evaluate(environment) => eval(value, environment, store),
            Continuation::Function(parameters, environment) => match value {
                RuntimeExpression::List(body) => Process::Complete(
                    RuntimeExpression::Function(parameters, environment, body),
                ),
                _ => fail_results(),
            },
            Continuation::Macro(parameters, environment) => match value {
                RuntimeExpression::List(body) => Process::Complete(
                    RuntimeExpression::Macro(parameters, environment, body),
                ),
                _ => fail_results(),
            },
            Continuation::MacroCall(name) => match value {
                RuntimeExpression::List(arguments) => Process::Complete(
                    RuntimeExpression::MacroCall(name, arguments),
                ),
                _ => fail_results(),
            },
            Continuation::Definition(name) => Process::Complete(
                RuntimeExpression::Definition(name, Box::new(value)),
            ),
            Continuation::Provide(name, environment) => {
                let _ = environment.provide(name.as_str(), value.clone(), store);
                Process::Complete(RuntimeExpression::Definition(name, Box::new(value)))
            },
            Continuation::Match(cases, environment) => match &cases {
                RuntimeExpression::List(cases) => {
                    if cases.len() % 2 != 0 {
                        argument_error(
                            "Match cases must be a list with an even number of elements",
                        )
                    } else {
                        try_cases(cases, &value, &environment, store, 0)
                    }
                },
                _ => argument_error("Match takes a value and a list of cases"),
            },
        }
    }
}

/// The arguments of a call have their first unit of work in `eval`, as a
/// sequence has it in `run_in_sequence`: what `eval` makes of the arguments
/// is what `run_in_sequence` makes of their evaluations.
pub proof fn lemma_arguments_take_the_first_unit(
    arguments: Seq<Value>,
    environment: Slots,
    store: StoreModel,
)
    ensures
        arguments_begun(arguments, environment, store) == began(
            deferred_each(arguments, environment),
            store,
        ),
{
    reveal_with_fuel(stepped, 2);
    let waiting = deferred_each(arguments, environment);
    if arguments.len() > 0 {
        assert(waiting.drop_first() =~= deferred_each(arguments.skip(1), environment));
        assert(waiting[0] == ProcessModel::Running(
            StepableModel::Evaluate(arguments[0], environment),
        ));
    }
}

/// The body of a function or macro has its first unit of work in `apply`
/// and `macro_expand`, as a sequence has it in `run_in_sequence_tco`: what
/// they make of the body is what `run_in_sequence_tco` makes of the
/// evaluations of its expressions.
pub proof fn lemma_body_takes_the_first_unit(
    body: Seq<Value>,
    environment: Slots,
    store: StoreModel,
)
    requires
        body.len() > 0,
    ensures
        body_begun(body, environment, store) == began_tco(
            deferred_each(body, environment),
            store,
        ),
{
    reveal_with_fuel(stepped, 2);
    let waiting = deferred_each(body, environment);
    assert(waiting.drop_first() =~= deferred_each(body.skip(1), environment));
    assert(waiting[0] == ProcessModel::Running(StepableModel::Evaluate(body[0], environment)));
}

/// A macro with a single expression as its body, as `Macro` builds every
/// macro, is expanded by `eval` as `macro_expand` expands it.
pub proof fn lemma_eval_expands_as_macro_expand(
    parameters: Seq<Seq<char>>,
    closed_over: Slots,
    body: Value,
    arguments: Seq<Value>,
    environment: Slots,
    store: StoreModel,
)
    ensures
        expanded_at_rest(parameters, closed_over, seq![body], arguments, store) == expanded(
            Value::Macro(parameters, closed_over, seq![body]),
            arguments,
            environment,
            store,
        ),
{
}

/// Whether the value holds no call of `Unquote` where `quote` would look for
/// one: in the items of a list, the arguments of a tuple or of a macro call,
/// the body of a function or macro, or the value of a definition.
pub open spec fn unquote_free(value: Value) -> bool
    decreases value,
{
    match value {
        Value::Function(_, _, body) => forall|i: int|
            0 <= i < body.len() ==> unquote_free(#[trigger] body[i]),
        Value::Macro(_, _, body) => forall|i: int|
            0 <= i < body.len() ==> unquote_free(#[trigger] body[i]),
        Value::TaggedTuple(_, values) => forall|i: int|
            0 <= i < values.len() ==> unquote_free(#[trigger] values[i]),
        Value::List(values) => forall|i: int|
            0 <= i < values.len() ==> unquote_free(#[trigger] values[i]),
        Value::MacroCall(name, arguments) => name != "Unquote"@ && forall|i: int|
            0 <= i < arguments.len() ==> unquote_free(#[trigger] arguments[i]),
        Value::Definition(_, value) => unquote_free(*value),
        _ => true,
    }
}

/// Quoting evaluates nothing but what is unquoted: the call that quotes a
/// value without a call of `Unquote` leaves the store untouched, and the
/// process that it returns completes with that very value and leaves the
/// store untouched too, whatever the value refers to and whatever the
/// environment binds. The number of steps that this takes is returned.
pub proof fn lemma_quote_rebuilds(value: Value, environment: Slots, store: StoreModel) -> (taken:
    nat)
    requires
        unquote_free(value),
    ensures
        quoted(value, environment, store).1 == store,
        run_alone(quoted(value, environment, store).0, store, taken) == (
            ProcessModel::Complete(value),
            store,
        ),
    decreases value, 1nat, 0nat,
{
    match value {
        Value::Function(parameters, closed_over, body) => {
            let steps = lemma_quote_runs_each(body, closed_over, store);
            lemma_chain_hands_over(
                sequenced(quoted_each(body, closed_over, store, body.len()).0),
                ContinuationModel::Function(parameters, closed_over),
                store,
                steps,
            )
        },
        Value::TaggedTuple(tag, values) => {
            let steps = lemma_quote_runs_each(values, environment, store);
            lemma_chain_hands_over(
                sequenced(quoted_each(values, environment, store, values.len()).0),
                ContinuationModel::Tag(*tag),
                store,
                steps,
            )
        },
        Value::List(values) => lemma_quote_runs_each(values, environment, store),
        Value::Macro(parameters, closed_over, body) => {
            let steps = lemma_quote_runs_each(body, closed_over, store);
            lemma_chain_hands_over(
                sequenced(quoted_each(body, closed_over, store, body.len()).0),
                ContinuationModel::Macro(parameters, closed_over),
                store,
                steps,
            )
        },
        Value::MacroCall(name, arguments) => {
            let steps = lemma_quote_runs_each(arguments, environment, store);
            lemma_chain_hands_over(
                sequenced(quoted_each(arguments, environment, store, arguments.len()).0),
                ContinuationModel::MacroCall(name),
                store,
                steps,
            )
        },
        Value::Definition(name, inner) => {
            let steps = lemma_quote_rebuilds(*inner, environment, store);
            lemma_chain_hands_over(
                quoted(*inner, environment, store).0,
                ContinuationModel::Definition(name),
                store,
                steps,
            )
        },
        _ => 0,
    }
}

/// The sequence over the quoted values completes with the list of the
/// values.
proof fn lemma_quote_runs_each(values: Seq<Value>, environment: Slots, store: StoreModel) -> (taken:
    nat)
    requires
        forall|i: int| 0 <= i < values.len() ==> unquote_free(#[trigger] values[i]),
    ensures
        quoted_each(values, environment, store, values.len()).1 == store,
        run_alone(
            sequenced(quoted_each(values, environment, store, values.len()).0),
            store,
            taken,
        ) == (ProcessModel::Complete(Value::List(values)), store),
    decreases values, 0nat, 1nat,
{
    let steps = lemma_quote_counts_each(values, environment, store, values.len());
    let stores = Seq::new(values.len() + 1, |i: int| store);
    let parts = quoted_each(values, environment, store, values.len()).0;
    assert(complete_in_turn(parts, steps, values, stores));
    lemma_in_sequence_keeps_order(parts, steps, values, stores)
}

/// How many steps the quoting of each of the first `count` values takes.
proof fn lemma_quote_counts_each(
    values: Seq<Value>,
    environment: Slots,
    store: StoreModel,
    count: nat,
) -> (steps: Seq<nat>)
    requires
        count <= values.len(),
        forall|i: int| 0 <= i < values.len() ==> unquote_free(#[trigger] values[i]),
    ensures
        steps.len() == count,
        quoted_each(values, environment, store, count).1 == store,
        quoted_each(values, environment, store, count).0.len() == count,
        forall|i: int|
            0 <= i < count ==> run_alone(
                #[trigger] quoted_each(values, environment, store, count).0[i],
                store,
                steps[i],
            ) == (ProcessModel::Complete(values[i]), store),
    decreases values, 0nat, 0nat, count,
{
    if count == 0 {
        Seq::empty()
    } else {
        let before = lemma_quote_counts_each(values, environment, store, (count - 1) as nat);
        let last = lemma_quote_rebuilds(values[count - 1], environment, store);
        let parts = quoted_each(values, environment, store, count).0;
        let earlier = quoted_each(values, environment, store, (count - 1) as nat).0;
        let steps = before.push(last);
        assert forall|i: int| 0 <= i < count implies run_alone(
            #[trigger] parts[i],
            store,
            steps[i],
        ) == (ProcessModel::Complete(values[i]), store) by {
            if i < count - 1 {
                assert(parts[i] == earlier[i]);
            }
        }
        steps
    }
}

/// What is unquoted is evaluated where it stands, in the call of `quote`:
/// the process that quotes a call of `Unquote` is the evaluation of the
/// argument of the call in the environment of the quotation.
pub proof fn lemma_unquote_evaluates(
    arguments: Seq<Value>,
    environment: Slots,
    store: StoreModel,
)
    requires
        arguments.len() > 0,
    ensures
        quoted(Value::MacroCall("Unquote"@, arguments), environment, store) == evaluated(
            arguments[0],
            environment,
            store,
        ),
{
}

/// A call in tail position adds no wrapper: the process that applies a
/// function whose body is a single expression is the evaluation of that
/// expression itself, so that a function that calls itself as the last thing
/// it does runs in a process that does not grow.
pub proof fn lemma_tail_call_is_unwrapped(
    parameters: Seq<Seq<char>>,
    environment: Slots,
    body: Value,
    arguments: Seq<Value>,
    store: StoreModel,
)
    requires
        parameters.len() == arguments.len(),
    ensures
        applied_function(parameters, environment, seq![body], arguments, store).0
            == ProcessModel::Running(
            StepableModel::Evaluate(
                body,
                extended(
                    environment,
                    paired(parameters, arguments),
                    parameters.len(),
                    store,
                ).0,
            ),
        ),
{
}

/// A call replaces the caller. The process of a call is the evaluation of
/// the arguments before the continuation that applies the function. Where
/// the arguments have their values after some steps, the process is, in the
/// step in which the last of them is there, the evaluation of the body of
/// the function in its new environment and nothing else: the chain is gone
/// and has left nothing to come back to. So the process of a function that
/// ends with a call of itself is of the same shape at every call, whatever
/// the number of calls. The number of steps is returned.
pub proof fn lemma_call_replaces_the_caller(
    parameters: Seq<Seq<char>>,
    environment: Slots,
    body: Value,
    evaluation: ProcessModel,
    arguments: Seq<Value>,
    store: StoreModel,
    steps: nat,
) -> (taken: nat)
    requires
        run_alone(evaluation, store, steps).0 == ProcessModel::Complete(Value::List(arguments)),
        parameters.len() == arguments.len(),
    ensures
        run_alone(
            chained(
                evaluation,
                ContinuationModel::Apply(Value::Function(parameters, environment, seq![body])),
            ),
            store,
            taken,
        ) == (
            ProcessModel::Running(
                StepableModel::Evaluate(
                    body,
                    extended(
                        environment,
                        paired(parameters, arguments),
                        parameters.len(),
                        run_alone(evaluation, store, steps).1,
                    ).0,
                ),
            ),
            extended(
                environment,
                paired(parameters, arguments),
                parameters.len(),
                run_alone(evaluation, store, steps).1,
            ).1,
        ),
{
    let function = Value::Function(parameters, environment, seq![body]);
    lemma_tail_call_is_unwrapped(
        parameters,
        environment,
        body,
        arguments,
        run_alone(evaluation, store, steps).1,
    );
    lemma_chain_hands_over(evaluation, ContinuationModel::Apply(function), store, steps)
}

/// The call of `eval` only adds cells to the store: it fills none, and what
/// was in the store stays as it was.
pub proof fn lemma_evaluated_extends(expression: Value, environment: Slots, store: StoreModel)
    ensures
        evaluated(expression, environment, store).1.extends(store),
        evaluated(expression, environment, store).1.keeps(store),
    decreases expression, 0nat,
{
    match expression {
        Value::TaggedTuple(tag, arguments) => {
            lemma_arguments_begun_extends(arguments, environment, store);
        },
        Value::MacroCall(name, arguments) => match lookup(environment, name, store) {
            Some(Value::Macro(parameters, closed_over, body)) => {
                let bindings = paired(parameters, arguments);
                lemma_extended_extends(closed_over, bindings, bindings.len(), store);
            },
            Some(Value::BuiltinMacro(_, native)) => {
                lemma_native_called_extends(native, arguments, environment, store);
            },
            _ => {},
        },
        Value::List(items) => {
            lemma_evaluated_each_extends(items, environment, store, items.len());
        },
        _ => {},
    }
}

/// The evaluation of the first argument only adds cells to the store.
pub proof fn lemma_arguments_begun_extends(arguments: Seq<Value>, environment: Slots, store: StoreModel)
    ensures
        arguments_begun(arguments, environment, store).1.extends(store),
        arguments_begun(arguments, environment, store).1.keeps(store),
    decreases arguments, 0nat,
{
    if arguments.len() > 0 {
        lemma_evaluated_extends(arguments[0], environment, store);
    }
}

/// The evaluations of the items only add cells to the store.
pub proof fn lemma_evaluated_each_extends(
    items: Seq<Value>,
    environment: Slots,
    store: StoreModel,
    count: nat,
)
    ensures
        evaluated_each(items, environment, store, count).1.extends(store),
        evaluated_each(items, environment, store, count).1.keeps(store),
    decreases items, count,
{
    if !(count == 0 || count > items.len()) {
        lemma_evaluated_each_extends(items, environment, store, (count - 1) as nat);
        let cells = evaluated_each(items, environment, store, (count - 1) as nat).1;
        lemma_evaluated_extends(items[count - 1], environment, cells);
        lemma_extends_in_two(store, cells, evaluated(items[count - 1], environment, cells).1);
        lemma_keeps_in_two(store, cells, evaluated(items[count - 1], environment, cells).1);
    }
}

/// A native macro only adds cells to the store.
pub proof fn lemma_native_called_extends(
    native: NativeMacro,
    arguments: Seq<Value>,
    environment: Slots,
    store: StoreModel,
)
    ensures
        native_called(native, arguments, environment, store).1.extends(store),
        native_called(native, arguments, environment, store).1.keeps(store),
    decreases arguments, 0nat,
{
    match native {
        NativeMacro::Def => if arguments.len() == 2 {
            match arguments[0] {
                Value::Symbol(name) | Value::String(name) => {
                    let child = environment.insert(name, store.cells.len() as usize);
                    lemma_evaluated_extends(arguments[1], child, store.allocate(None));
                    lemma_extends_in_two(
                        store,
                        store.allocate(None),
                        evaluated(arguments[1], child, store.allocate(None)).1,
                    );
                    lemma_keeps_in_two(
                        store,
                        store.allocate(None),
                        evaluated(arguments[1], child, store.allocate(None)).1,
                    );
                },
                _ => {},
            }
        },
        NativeMacro::Match => if arguments.len() == 2 {
            lemma_evaluated_extends(arguments[0], environment, store);
        },
        NativeMacro::Quote => if arguments.len() == 1 {
            lemma_quoted_extends(arguments[0], environment, store);
        },
        _ => {},
    }
}

/// The call of `quote` only adds cells to the store.
pub proof fn lemma_quoted_extends(value: Value, environment: Slots, store: StoreModel)
    ensures
        quoted(value, environment, store).1.extends(store),
        quoted(value, environment, store).1.keeps(store),
    decreases value, 0nat,
{
    match value {
        Value::Function(_, closed_over, body) => {
            lemma_quoted_each_extends(body, closed_over, store, body.len());
        },
        Value::TaggedTuple(_, values) => {
            lemma_quoted_each_extends(values, environment, store, values.len());
        },
        Value::List(values) => {
            lemma_quoted_each_extends(values, environment, store, values.len());
        },
        Value::Macro(_, closed_over, body) => {
            lemma_quoted_each_extends(body, closed_over, store, body.len());
        },
        Value::MacroCall(name, arguments) => if name == "Unquote"@ {
            if arguments.len() > 0 {
                lemma_evaluated_extends(arguments[0], environment, store);
            }
        } else {
            lemma_quoted_each_extends(arguments, environment, store, arguments.len());
        },
        Value::Definition(_, inner) => {
            lemma_quoted_extends(*inner, environment, store);
        },
        _ => {},
    }
}

/// The quoting of the values only adds cells to the store.
pub proof fn lemma_quoted_each_extends(
    values: Seq<Value>,
    environment: Slots,
    store: StoreModel,
    count: nat,
)
    ensures
        quoted_each(values, environment, store, count).1.extends(store),
        quoted_each(values, environment, store, count).1.keeps(store),
    decreases values, count,
{
    if !(count == 0 || count > values.len()) {
        lemma_quoted_each_extends(values, environment, store, (count - 1) as nat);
        let cells = quoted_each(values, environment, store, (count - 1) as nat).1;
        lemma_quoted_extends(values[count - 1], environment, cells);
        lemma_extends_in_two(store, cells, quoted(values[count - 1], environment, cells).1);
        lemma_keeps_in_two(store, cells, quoted(values[count - 1], environment, cells).1);
    }
}

/// The call of a function that was written in the language only adds cells
/// to the store.
pub proof fn lemma_applied_function_extends(
    parameters: Seq<Seq<char>>,
    environment: Slots,
    body: Seq<Value>,
    arguments: Seq<Value>,
    store: StoreModel,
)
    ensures
        applied_function(parameters, environment, body, arguments, store).1.extends(store),
        applied_function(parameters, environment, body, arguments, store).1.keeps(store),
{
    if parameters.len() == arguments.len() && body.len() > 0 {
        let bindings = paired(parameters, arguments);
        lemma_extended_extends(environment, bindings, parameters.len(), store);
        let (child, cells) = extended(environment, bindings, parameters.len(), store);
        if body.len() > 1 {
            lemma_evaluated_extends(body[0], child, cells);
            lemma_extends_in_two(store, cells, evaluated(body[0], child, cells).1);
            lemma_keeps_in_two(store, cells, evaluated(body[0], child, cells).1);
        }
    }
}

/// `apply` only adds cells to the store.
pub proof fn lemma_applied_extends(function: Value, arguments: Seq<Value>, store: StoreModel)
    ensures
        applied(function, arguments, store).1.extends(store),
        applied(function, arguments, store).1.keeps(store),
{
    match function {
        Value::BuiltinFunction(builtin) => {
            crate::standard_library::lemma_called_extends(builtin, arguments, store);
        },
        Value::Function(parameters, environment, body) => {
            lemma_applied_function_extends(parameters, environment, body, arguments, store);
        },
        _ => {},
    }
}

/// `macro_expand` only adds cells to the store.
pub proof fn lemma_expanded_extends(
    macro_value: Value,
    arguments: Seq<Value>,
    environment: Slots,
    store: StoreModel,
)
    ensures
        expanded(macro_value, arguments, environment, store).1.extends(store),
        expanded(macro_value, arguments, environment, store).1.keeps(store),
{
    match macro_value {
        Value::BuiltinMacro(_, native) => {
            lemma_native_called_extends(native, arguments, environment, store);
        },
        Value::Macro(parameters, closed_over, body) => if body.len() > 0 {
            let bindings = paired(parameters, arguments);
            lemma_extended_extends(closed_over, bindings, bindings.len(), store);
            let (child, cells) = extended(closed_over, bindings, bindings.len(), store);
            if body.len() > 1 {
                lemma_evaluated_extends(body[0], child, cells);
                lemma_extends_in_two(store, cells, evaluated(body[0], child, cells).1);
                lemma_keeps_in_two(store, cells, evaluated(body[0], child, cells).1);
            }
        },
        _ => {},
    }
}

/// `Match` only adds cells to the store.
pub proof fn lemma_chosen_extends(
    cases: Seq<Value>,
    value: Value,
    environment: Slots,
    store: StoreModel,
    start: int,
)
    ensures
        chosen(cases, value, environment, store, start).1.extends(store),
        chosen(cases, value, environment, store, start).1.keeps(store),
    decreases cases.len() - start,
{
    if 0 <= start && start + 1 < cases.len() {
        match matched(cases[start], value) {
            Some(bindings) => {
                lemma_extended_extends(environment, bindings, bindings.len(), store);
                let (child, cells) = extended(environment, bindings, bindings.len(), store);
                lemma_evaluated_extends(cases[start + 1], child, cells);
                lemma_extends_in_two(store, cells, evaluated(cases[start + 1], child, cells).1);
                lemma_keeps_in_two(store, cells, evaluated(cases[start + 1], child, cells).1);
            },
            None => {
                lemma_chosen_extends(cases, value, environment, store, start + 2);
            },
        }
    }
}

/// A continuation adds cells to the store or fills an empty one; what was
/// in the store stays as it was.
pub proof fn lemma_resumed_extends(
    continuation: ContinuationModel,
    value: Value,
    store: StoreModel,
)
    ensures
        resumed(continuation, value, store).1.extends(store),
{
    match continuation {
        ContinuationModel::Apply(function) => match value {
            Value::List(arguments) => {
                lemma_applied_extends(function, arguments, store);
            },
            _ => {},
        },
        ContinuationModel::Evaluate(environment) => {
            lemma_evaluated_extends(value, environment, store);
        },
        ContinuationModel::Match(cases, environment) => match cases {
            Value::List(cases) => {
                lemma_chosen_extends(cases, value, environment, store, 0);
            },
            _ => {},
        },
        _ => {},
    }
}

/// The environment in which `Def` evaluates the value: the environment of
/// the definition with the name bound to the cell that is reserved for it.
pub open spec fn defining(environment: Slots, name: Seq<char>, store: StoreModel) -> Slots {
    environment.insert(name, store.cells.len() as usize)
}

/// A definition can refer to itself. `Def` reserves the cell of the name
/// before it evaluates the value, and the value is evaluated in an
/// environment in which the name is bound to that cell. The evaluation in the
/// call leaves the cell empty, whatever the value is made of. Where the
/// value is there when the call returns, the first step of the process fills
/// the cell and completes with the definition, and the name has the value
/// in the environment of the evaluation from then on: in every copy of it,
/// such as the one that a function closed over.
pub proof fn lemma_definition_sees_itself(
    name: Seq<char>,
    value: Value,
    environment: Slots,
    store: StoreModel,
)
    requires
        store.cells.len() <= usize::MAX,
    ensures
        native_called(
            NativeMacro::Def,
            seq![Value::Symbol(name), value],
            environment,
            store,
        ) == (
            chained(
                evaluated(value, defining(environment, name, store), store.allocate(None)).0,
                ContinuationModel::Provide(name, defining(environment, name, store)),
            ),
            evaluated(value, defining(environment, name, store), store.allocate(None)).1,
        ),
        lookup(defining(environment, name, store), name, store.allocate(None)) is None,
        evaluated(value, defining(environment, name, store), store.allocate(None)).1.vacant(
            store.cells.len() as int,
        ),
        evaluated(
            value,
            defining(environment, name, store),
            store.allocate(None),
        ).0 matches ProcessModel::Complete(result) ==> stepped(
            StepableModel::AndThen(
                Box::new(ProcessModel::Complete(result)),
                ContinuationModel::Provide(name, defining(environment, name, store)),
            ),
            evaluated(value, defining(environment, name, store), store.allocate(None)).1,
        ).0 == ProcessModel::Complete(Value::Definition(name, Box::new(result))) && lookup(
            defining(environment, name, store),
            name,
            stepped(
                StepableModel::AndThen(
                    Box::new(ProcessModel::Complete(result)),
                    ContinuationModel::Provide(name, defining(environment, name, store)),
                ),
                evaluated(value, defining(environment, name, store), store.allocate(None)).1,
            ).1,
        ) == Some(result),
{
    let child = defining(environment, name, store);
    lemma_evaluated_extends(value, child, store.allocate(None));
    let after = evaluated(value, child, store.allocate(None)).1;
    assert(store.allocate(None).cells[store.cells.len() as int] is None);
    let cell = store.cells.len() as int;
    assert(after.cells[cell] == store.allocate(None).cells[cell]);
}

/// A function sees its own definition: where `Def` defines a name as a
/// function that `Fn` makes, the function closes over the environment in
/// which the name is reserved, and the first step of the definition puts the
/// function itself under the name there. So the function can call itself by
/// its name, although the cell was empty when the function was made.
pub proof fn lemma_defined_function_sees_itself(
    name: Seq<char>,
    parameters: Seq<Value>,
    body: Value,
    environment: Slots,
    store: StoreModel,
)
    requires
        store.cells.len() <= usize::MAX,
        symbol_names(parameters) is Some,
        lookup(defining(environment, name, store), "Fn"@, store.allocate(None)) matches Some(
            Value::BuiltinMacro(_, native),
        ) && native == NativeMacro::Fn,
    ensures
        native_called(
            NativeMacro::Def,
            seq![
                Value::Symbol(name),
                Value::MacroCall("Fn"@, seq![Value::List(parameters), body]),
            ],
            environment,
            store,
        ) == (
            chained(
                ProcessModel::Complete(
                    Value::Function(
                        symbol_names(parameters)->Some_0,
                        defining(environment, name, store),
                        seq![body],
                    ),
                ),
                ContinuationModel::Provide(name, defining(environment, name, store)),
            ),
            store.allocate(None),
        ),
        stepped(
            StepableModel::AndThen(
                Box::new(
                    ProcessModel::Complete(
                        Value::Function(
                            symbol_names(parameters)->Some_0,
                            defining(environment, name, store),
                            seq![body],
                        ),
                    ),
                ),
                ContinuationModel::Provide(name, defining(environment, name, store)),
            ),
            store.allocate(None),
        ).0 == ProcessModel::Complete(
            Value::Definition(
                name,
                Box::new(
                    Value::Function(
                        symbol_names(parameters)->Some_0,
                        defining(environment, name, store),
                        seq![body],
                    ),
                ),
            ),
        ),
        lookup(
            defining(environment, name, store),
            name,
            stepped(
                StepableModel::AndThen(
                    Box::new(
                        ProcessModel::Complete(
                            Value::Function(
                                symbol_names(parameters)->Some_0,
                                defining(environment, name, store),
                                seq![body],
                            ),
                        ),
                    ),
                    ContinuationModel::Provide(name, defining(environment, name, store)),
                ),
                store.allocate(None),
            ).1,
        ) == Some(
            Value::Function(
                symbol_names(parameters)->Some_0,
                defining(environment, name, store),
                seq![body],
            ),
        ),
{
    let child = defining(environment, name, store);
    let value = Value::MacroCall("Fn"@, seq![Value::List(parameters), body]);
    assert(evaluated(value, child, store.allocate(None)) == (
        ProcessModel::Complete(
            Value::Function(symbol_names(parameters)->Some_0, child, seq![body]),
        ),
        store.allocate(None),
    ));
    lemma_definition_sees_itself(name, value, environment, store);
}

} // verus!

//! The functions and macros that are implemented natively, and the
//! environment that holds them.
//!
//! The native functions take values:
//!
//! - `log` records its arguments, printed on one line, and returns the first;
//! - `add`, `subtract`, `multiply`, `divide` and `remainder` take two numbers,
//!   and `decrement` takes one; a result that is no number of the language is
//!   an error, as is a division by zero;
//! - `spawn` takes a function without parameters and hands its call to the
//!   scheduler as a process of its own; the caller goes on at once with
//!   `:process-spawned`;
//! - `atom` and `get` make and read atoms;
//! - `time` returns the time that the host last told the store, in
//!   milliseconds;
//! - `panic` ends with the error `:error(:panic ..)`, which says what it was
//!   called with.
//!
//! The native macros take syntax:
//!
//! - `Def name value` binds the name to the value of the expression, which may
//!   refer to the name;
//! - `Match value cases` evaluates the body of the first case whose pattern
//!   matches the value;
//! - `Fn params body` and `Macro params body` close over the environment;
//! - `Quote value` rebuilds the value unevaluated, but for what is unquoted.
//!
//! An argument that a native function or macro cannot take is no failure of
//! the evaluator: the call completes with an error value.

use crate::environment::{
    binding_models, extended, fits, lemma_extends_in_two, Environment, Store, StoreModel,
};
use crate::errors::{argument_error, error_with_message, failed, failed_argument};
use crate::eval::{applied_function, apply_function};
use crate::execution::{
    execute, executed, executed_store, lemma_executed_store_extends, RunModel,
};
use crate::expressions::{
    copy_values, models, printed_many, render_many, texts, Builtin, NativeMacro,
    RuntimeExpression, Value,
};
use crate::parsers::macros::{ExpansionError, ExpansionFault};
use crate::persistent::Slots;
use crate::process::{Process, ProcessModel};
use crate::standard_library::atom::{holding, Atom};
use vstd::prelude::*;

pub mod atom;
pub mod matching;

verus! {

/// What a native function complains of when its arguments are not what it
/// takes.
pub open spec fn complaint(builtin: Builtin) -> Seq<char> {
    match builtin {
        Builtin::Log => "log takes at least 1 argument"@,
        Builtin::Add => "add takes exactly 2 numbers"@,
        Builtin::Subtract => "subtract takes exactly 2 numbers"@,
        Builtin::Multiply => "multiply takes exactly 2 numbers"@,
        Builtin::Divide => "divide takes exactly 2 numbers"@,
        Builtin::Remainder => "remainder takes exactly 2 numbers"@,
        Builtin::Decrement => "decrement takes exactly 1 number"@,
        Builtin::Spawn => "spawn takes 1 function (with no arguments) as an argument"@,
        Builtin::Atom => "atom takes exactly 2 arguments"@,
        Builtin::Get => "get takes exactly one atom as an argument"@,
        Builtin::Time => "time takes no arguments"@,
        Builtin::Panic => "Panic called with "@,
    }
}

/// What a native function complains of when the result is no number that the
/// language has: numbers are the integers from 0 to `u128::MAX`.
pub open spec fn range_complaint(builtin: Builtin) -> Seq<char> {
    match builtin {
        Builtin::Add => "add went above the largest number"@,
        Builtin::Subtract => "subtract went below zero"@,
        Builtin::Multiply => "multiply went above the largest number"@,
        Builtin::Divide => "divide by zero"@,
        Builtin::Remainder => "remainder by zero"@,
        _ => "decrement went below zero"@,
    }
}

/// The result of the arithmetic function on two numbers, where it is a
/// number.
pub open spec fn computed(builtin: Builtin, left: u128, right: u128) -> Option<u128> {
    match builtin {
        Builtin::Add => if left + right <= u128::MAX {
            Some((left + right) as u128)
        } else {
            None
        },
        Builtin::Subtract => if left >= right {
            Some((left - right) as u128)
        } else {
            None
        },
        Builtin::Multiply => if left * right <= u128::MAX {
            Some((left * right) as u128)
        } else {
            None
        },
        Builtin::Divide => if right != 0 {
            Some(left / right)
        } else {
            None
        },
        Builtin::Remainder => if right != 0 {
            Some(left % right)
        } else {
            None
        },
        _ => None,
    }
}

/// The completed process that reports `result`, or the complaint of
/// `builtin` where there is none.
pub open spec fn reported(builtin: Builtin, result: Option<u128>) -> ProcessModel {
    match result {
        Some(number) => ProcessModel::Complete(Value::Number(number)),
        None => failed_argument(range_complaint(builtin)),
    }
}

/// What calling a native function with the given arguments does.
pub open spec fn called(builtin: Builtin, arguments: Seq<Value>, store: StoreModel) -> (
    ProcessModel,
    StoreModel,
) {
    match builtin {
        Builtin::Log => if arguments.len() > 0 {
            (ProcessModel::Complete(arguments[0]), store.log(printed_many(arguments, " "@)))
        } else {
            (failed_argument(complaint(builtin)), store)
        },
        Builtin::Decrement => if arguments.len() == 1 {
            match arguments[0] {
                Value::Number(number) => (
                    reported(builtin, computed(Builtin::Subtract, number, 1)),
                    store,
                ),
                _ => (failed_argument(complaint(builtin)), store),
            }
        } else {
            (failed_argument(complaint(builtin)), store)
        },
        Builtin::Spawn => if arguments.len() == 1 {
            match arguments[0] {
                Value::Function(parameters, environment, body) => {
                    let (spawned, cells) = applied_function(
                        parameters,
                        environment,
                        body,
                        Seq::empty(),
                        store,
                    );
                    (
                        ProcessModel::Spawn(
                            Box::new(ProcessModel::Complete(Value::Keyword("process-spawned"@))),
                            seq![spawned],
                        ),
                        cells,
                    )
                },
                _ => (failed_argument(complaint(builtin)), store),
            }
        } else {
            (failed_argument(complaint(builtin)), store)
        },
        Builtin::Atom => if arguments.len() == 2 {
            match arguments[1] {
                Value::List(watchers) => (
                    ProcessModel::Complete(Value::Atom(store.atoms.len() as usize)),
                    store.with_atom(holding(arguments[0], watchers)),
                ),
                _ => (
                    failed_argument(
                        "atom's second argument must be a list of watcher functions"@,
                    ),
                    store,
                ),
            }
        } else {
            (failed_argument(complaint(builtin)), store)
        },
        Builtin::Time => if arguments.len() == 0 {
            (ProcessModel::Complete(Value::Number(store.clock)), store)
        } else {
            (failed_argument(complaint(builtin)), store)
        },
        Builtin::Panic => (
            failed("panic"@, complaint(builtin) + printed_many(arguments, " "@)),
            store,
        ),
        Builtin::Get => if arguments.len() == 1 {
            match arguments[0] {
                Value::Atom(cell) => if cell < store.atoms.len() {
                    (ProcessModel::Complete(store.atoms[cell as int].value), store)
                } else {
                    (failed_argument(complaint(builtin)), store)
                },
                _ => (failed_argument(complaint(builtin)), store),
            }
        } else {
            (failed_argument(complaint(builtin)), store)
        },
        _ => if arguments.len() == 2 {
            match (arguments[0], arguments[1]) {
                (Value::Number(left), Value::Number(right)) => (
                    reported(builtin, computed(builtin, left, right)),
                    store,
                ),
                _ => (failed_argument(complaint(builtin)), store),
            }
        } else {
            (failed_argument(complaint(builtin)), store)
        },
    }
}

fn complain(builtin: Builtin) -> (process: Process)
    ensures
        process@ == failed_argument(complaint(builtin)),
{
    match builtin {
        Builtin::Log => argument_error("log takes at least 1 argument"),
        Builtin::Add => argument_error("add takes exactly 2 numbers"),
        Builtin::Subtract => argument_error("subtract takes exactly 2 numbers"),
        Builtin::Multiply => argument_error("multiply takes exactly 2 numbers"),
        Builtin::Divide => argument_error("divide takes exactly 2 numbers"),
        Builtin::Remainder => argument_error("remainder takes exactly 2 numbers"),
        Builtin::Decrement => argument_error("decrement takes exactly 1 number"),
        Builtin::Spawn => argument_error(
            "spawn takes 1 function (with no arguments) as an argument",
        ),
        Builtin::Atom => argument_error("atom takes exactly 2 arguments"),
        Builtin::Get => argument_error("get takes exactly one atom as an argument"),
        Builtin::Time => argument_error("time takes no arguments"),
        Builtin::Panic => argument_error("Panic called with "),
    }
}

fn compute(builtin: Builtin, left: u128, right: u128) -> (result: Option<u128>)
    ensures
        result == computed(builtin, left, right),
{
    match builtin {
        Builtin::Add => left.checked_add(right),
        Builtin::Subtract => left.checked_sub(right),
        Builtin::Multiply => left.checked_mul(right),
        Builtin::Divide => left.checked_div(right),
        Builtin::Remainder => left.checked_rem(right),
        _ => None,
    }
}

fn report(builtin: Builtin, result: Option<u128>) -> (process: Process)
    ensures
        process@ == reported(builtin, result),
{
    match result {
        Some(number) => Process::Complete(RuntimeExpression::Number(number)),
        None => match builtin {
            Builtin::Add => argument_error("add went above the largest number"),
            Builtin::Subtract => argument_error("subtract went below zero"),
            Builtin::Multiply => argument_error("multiply went above the largest number"),
            Builtin::Divide => argument_error("divide by zero"),
            Builtin::Remainder => argument_error("remainder by zero"),
            _ => argument_error("decrement went below zero"),
        },
    }
}

/// Calls a native function with arguments that have been evaluated.
pub fn call_builtin(
    builtin: Builtin,
    arguments: &Vec<RuntimeExpression>,
    store: &mut Store,
) -> (process: Process)
    ensures
        (process@, final(store)@) == called(builtin, models(arguments@), old(store)@),
        final(store)@.extends(old(store)@),
{
    proof {
        lemma_called_extends(builtin, models(arguments@), store@);
    }
    match builtin {
        Builtin::Log => {
            if arguments.len() > 0 {
                store.log(render_many(arguments, " "));
                Process::Complete(arguments[0].clone())
            } else {
                complain(builtin)
            }
        },
        Builtin::Decrement => {
            if arguments.len() == 1 {
                match &arguments[0] {
                    RuntimeExpression::Number(number) => report(
                        builtin,
                        compute(Builtin::Subtract, *number, 1),
                    ),
                    _ => complain(builtin),
                }
            } else {
                complain(builtin)
            }
        },
        Builtin::Spawn => {
            if arguments.len() == 1 {
                match &arguments[0] {
                    RuntimeExpression::Function(parameters, environment, body) => {
                        let none: Vec<RuntimeExpression> = Vec::new();
                        proof {
                            assert(models(none@) =~= Seq::empty());
                        }
                        let spawned = apply_function(parameters, environment, body, &none, store);
                        let mut processes: Vec<Process> = Vec::new();
                        processes.push(spawned);
                        let marker = Process::Complete(
                            RuntimeExpression::Keyword(String::from_str("process-spawned")),
                        );
                        proof {
                            assert(crate::process::process_models(processes@) =~= seq![spawned@]);
                            assert(marker@ == ProcessModel::Complete(
                                Value::Keyword("process-spawned"@),
                            ));
                        }
                        Process::Spawn(Box::new(marker), processes)
                    },
                    _ => complain(builtin),
                }
            } else {
                complain(builtin)
            }
        },
        Builtin::Atom => {
            if arguments.len() == 2 {
                match &arguments[1] {
                    RuntimeExpression::List(watchers) => {
                        let atom = Atom::new(arguments[0].clone(), copy_values(watchers));
                        Process::Complete(RuntimeExpression::Atom(store.new_atom(atom)))
                    },
                    _ => argument_error(
                        "atom's second argument must be a list of watcher functions",
                    ),
                }
            } else {
                complain(builtin)
            }
        },
        Builtin::Time => {
            if arguments.len() == 0 {
                Process::Complete(RuntimeExpression::Number(store.clock()))
            } else {
                complain(builtin)
            }
        },
        Builtin::Panic => {
            let mut message = String::from_str("Panic called with ");
            message.append(render_many(arguments, " ").as_str());
            error_with_message("panic", message.as_str())
        },
        Builtin::Get => {
            if arguments.len() == 1 {
                match &arguments[0] {
                    RuntimeExpression::Atom(cell) => match store.atom(*cell) {
                        Some(atom) => Process::Complete(atom.get()),
                        None => complain(builtin),
                    },
                    _ => complain(builtin),
                }
            } else {
                complain(builtin)
            }
        },
        _ => {
            if arguments.len() == 2 {
                match (&arguments[0], &arguments[1]) {
                    (RuntimeExpression::Number(left), RuntimeExpression::Number(right)) => report(
                        builtin,
                        compute(builtin, *left, *right),
                    ),
                    _ => complain(builtin),
                }
            } else {
                complain(builtin)
            }
        },
    }
}

/// The binding of a native function.
pub open spec fn function_bound(name: Seq<char>, builtin: Builtin) -> (Seq<char>, Value) {
    (name, Value::BuiltinFunction(builtin))
}

/// The binding of a native macro that has the given parameters.
pub open spec fn macro_bound(name: Seq<char>, parameters: Seq<Seq<char>>, native: NativeMacro) -> (
    Seq<char>,
    Value,
) {
    (name, Value::BuiltinMacro(parameters, native))
}

/// The names of the native functions and macros, each with its value.
pub open spec fn native_bindings() -> Seq<(Seq<char>, Value)> {
    seq![
        function_bound("log"@, Builtin::Log),
        function_bound("add"@, Builtin::Add),
        function_bound("subtract"@, Builtin::Subtract),
        function_bound("multiply"@, Builtin::Multiply),
        function_bound("divide"@, Builtin::Divide),
        function_bound("remainder"@, Builtin::Remainder),
        function_bound("decrement"@, Builtin::Decrement),
        function_bound("spawn"@, Builtin::Spawn),
        function_bound("time"@, Builtin::Time),
        function_bound("panic"@, Builtin::Panic),
        macro_bound("Def"@, seq!["name"@, "value"@], NativeMacro::Def),
        macro_bound("Match"@, seq!["value"@, "cases"@], NativeMacro::Match),
        macro_bound("Fn"@, seq!["params"@, "body"@], NativeMacro::Fn),
        macro_bound("Quote"@, seq!["value"@], NativeMacro::Quote),
        macro_bound("Macro"@, seq!["params"@, "body"@], NativeMacro::Macro),
    ]
}

fn bind_function(name: &str, builtin: Builtin) -> (binding: (String, RuntimeExpression))
    ensures
        (binding.0@, binding.1@) == function_bound(name@, builtin),
{
    (String::from_str(name), RuntimeExpression::BuiltinFunction(builtin))
}

fn bind_macro(name: &str, first: &str, second: Option<&str>, native: NativeMacro) -> (binding: (
    String,
    RuntimeExpression,
))
    ensures
        (binding.0@, binding.1@) == macro_bound(
            name@,
            match second {
                Some(second) => seq![first@, second@],
                None => seq![first@],
            },
            native,
        ),
{
    let mut parameters: Vec<String> = Vec::new();
    parameters.push(String::from_str(first));
    match second {
        Some(second) => {
            parameters.push(String::from_str(second));
            proof {
                assert(texts(parameters@) =~= seq![first@, second@]);
            }
        },
        None => {
            proof {
                assert(texts(parameters@) =~= seq![first@]);
            }
        },
    }
    (String::from_str(name), RuntimeExpression::BuiltinMacro(parameters, native))
}

/// The environment that holds the native functions and macros, and nothing
/// else.
pub fn builtins(store: &mut Store) -> (environment: Environment)
    ensures
        (environment@, final(store)@) == extended(
            Slots::empty(),
            native_bindings(),
            native_bindings().len(),
            old(store)@,
        ),
        fits(environment@, final(store)@),
        final(store)@.extends(old(store)@),
{
    let mut bindings: Vec<(String, RuntimeExpression)> = Vec::new();
    bindings.push(bind_function("log", Builtin::Log));
    bindings.push(bind_function("add", Builtin::Add));
    bindings.push(bind_function("subtract", Builtin::Subtract));
    bindings.push(bind_function("multiply", Builtin::Multiply));
    bindings.push(bind_function("divide", Builtin::Divide));
    bindings.push(bind_function("remainder", Builtin::Remainder));
    bindings.push(bind_function("decrement", Builtin::Decrement));
    bindings.push(bind_function("spawn", Builtin::Spawn));
    bindings.push(bind_function("time", Builtin::Time));
    bindings.push(bind_function("panic", Builtin::Panic));
    bindings.push(bind_macro("Def", "name", Some("value"), NativeMacro::Def));
    bindings.push(bind_macro("Match", "value", Some("cases"), NativeMacro::Match));
    bindings.push(bind_macro("Fn", "params", Some("body"), NativeMacro::Fn));
    bindings.push(bind_macro("Quote", "value", None, NativeMacro::Quote));
    bindings.push(bind_macro("Macro", "params", Some("body"), NativeMacro::Macro));
    proof {
        assert(binding_models(bindings@) =~= native_bindings());
    }
    Environment::from(&bindings, store)
}

/// The environment that running `prelude` leaves, where it runs to its end
/// within the budget.
pub open spec fn library_of(run: Result<RunModel, ExpansionFault>) -> Result<
    Option<Slots>,
    ExpansionFault,
> {
    match run {
        Ok(run) => if run.active.len() == 0 && run.completed.len() > 0 {
            Ok(Some(run.completed[0].1))
        } else {
            Ok(None)
        },
        Err(fault) => Err(fault),
    }
}

/// The run of the prelude on top of the native functions and macros.
pub open spec fn prepared(prelude: Seq<char>, store: StoreModel, budget: nat) -> Result<
    RunModel,
    ExpansionFault,
> {
    let (natives, cells) = extended(
        Slots::empty(),
        native_bindings(),
        native_bindings().len(),
        store,
    );
    executed(prelude, natives, cells, budget)
}

/// The store that building the library leaves: where the prelude fails, the
/// store as it was when the form could not be expanded, with the cells of the
/// native functions and macros in it.
pub open spec fn prepared_store(prelude: Seq<char>, store: StoreModel, budget: nat) -> StoreModel {
    let (natives, cells) = extended(
        Slots::empty(),
        native_bindings(),
        native_bindings().len(),
        store,
    );
    executed_store(prelude, natives, cells, budget)
}

/// Where the library is built without failure, the store that is left is the
/// store of the run of the prelude.
pub proof fn lemma_prepared_store_is_the_store_of_the_run(
    prelude: Seq<char>,
    store: StoreModel,
    budget: nat,
)
    ensures
        prepared(prelude, store, budget) matches Ok(run) ==> run.store == prepared_store(
            prelude,
            store,
            budget,
        ),
{
    let (natives, cells) = extended(
        Slots::empty(),
        native_bindings(),
        native_bindings().len(),
        store,
    );
    match crate::execution::begun(
        crate::execution::uncommented(crate::parsers::nana::forms_at(prelude, 0).0),
        natives,
        Seq::empty(),
        cells,
    ) {
        Ok((execution, begun_cells)) => {
            crate::execution::lemma_run_store_is_the_store_of_the_run(
                seq![execution],
                Seq::empty(),
                begun_cells,
                budget,
            );
        },
        Err(_) => {},
    }
}

/// The model of a library that may be missing.
pub open spec fn library_model(outcome: Result<Option<Environment>, ExpansionError>) -> Result<
    Option<Slots>,
    ExpansionFault,
> {
    match outcome {
        Ok(Some(environment)) => Ok(Some(environment@)),
        Ok(None) => Ok(None),
        Err(error) => Err(error@),
    }
}

/// The standard library: the environment that is left when `prelude`, the
/// part of the library that is written in the language itself, has been run
/// on top of the native functions and macros. `None` where the prelude does
/// not run to its end within the budget.
pub fn standard_library(prelude: &str, store: &mut Store, budget: usize) -> (library: Result<
    Option<Environment>,
    ExpansionError,
>)
    ensures
        library_model(library) == library_of(prepared(prelude@, old(store)@, budget as nat)),
        final(store)@ == prepared_store(prelude@, old(store)@, budget as nat),
        final(store)@.extends(old(store)@),
{
    let natives = builtins(store);
    let ghost bound = store@;
    proof {
        lemma_executed_store_extends(prelude@, natives@, bound, budget as nat);
        lemma_extends_in_two(
            old(store)@,
            bound,
            executed_store(prelude@, natives@, bound, budget as nat),
        );
    }
    match execute(String::from_str(prelude), natives, store, budget) {
        Ok(run) => {
            let mut run = run;
            if run.active.len() == 0 && run.completed.len() > 0 {
                let (_, environment) = run.completed.swap_remove(0);
                Ok(Some(environment))
            } else {
                Ok(None)
            }
        },
        Err(error) => Err(error),
    }
}

/// A native function adds cells, atoms or output to the store; what was in
/// its cells stays as it was.
pub proof fn lemma_called_extends(builtin: Builtin, arguments: Seq<Value>, store: StoreModel)
    ensures
        called(builtin, arguments, store).1.extends(store),
        called(builtin, arguments, store).1.keeps(store),
{
    match builtin {
        Builtin::Spawn => if arguments.len() == 1 {
            match arguments[0] {
                Value::Function(parameters, environment, body) => {
                    crate::eval::lemma_applied_function_extends(
                        parameters,
                        environment,
                        body,
                        Seq::empty(),
                        store,
                    );
                },
                _ => {},
            }
        },
        _ => {},
    }
}

} // verus!

use nana::environment::{Environment, Store};
use nana::eval::{apply, eval, macro_expand, quote};
use nana::expressions::RuntimeExpression::{
    self, BuiltinFunction, BuiltinMacro, Definition, Function, Hole, Keyword, List, Macro,
    MacroCall, Number, Symbol, TaggedTuple,
};
use nana::expressions::{Builtin, NativeMacro};
use nana::process::{Continuation, Process, Stepable};

const BUDGET: usize = 10_000;

fn text(value: &str) -> String {
    value.to_string()
}

fn symbol(name: &str) -> RuntimeExpression {
    Symbol(text(name))
}

fn call(name: &str, arguments: Vec<RuntimeExpression>) -> RuntimeExpression {
    TaggedTuple(Box::new(symbol(name)), arguments)
}

fn failure(variety: &str, message: &str) -> RuntimeExpression {
    TaggedTuple(
        Box::new(Keyword(text("error"))),
        vec![Keyword(text(variety)), RuntimeExpression::String(text(message))],
    )
}

fn environment(store: &mut Store) -> Environment {
    Environment::from(
        &vec![
            (text("life"), Number(42)),
            (
                text("Package"),
                Macro(vec![text("name")], Environment::new(), vec![]),
            ),
            (text("add"), BuiltinFunction(Builtin::Add)),
            (
                text("Quote"),
                BuiltinMacro(vec![text("value")], NativeMacro::Quote),
            ),
            (
                text("ignore"),
                Macro(vec![text("expression")], Environment::new(), vec![Number(42)]),
            ),
        ],
        store,
    )
}

fn environment_with_fn(store: &mut Store) -> Environment {
    let closed_over = environment(store);
    Environment::from(
        &vec![
            (text("life"), Number(2)),
            (
                text("list-nums"),
                Function(
                    vec![text("n")],
                    closed_over,
                    vec![
                        Number(0),
                        List(vec![Number(1), symbol("n"), Number(3), symbol("life")]),
                    ],
                ),
            ),
        ],
        store,
    )
}

fn run(process: Process, store: &mut Store) -> RuntimeExpression {
    process
        .run_once_until_complete(store, BUDGET)
        .expect("the process runs to its end")
}

#[test]
fn test_scalar_literals() {
    let mut store = Store::new();
    let env = environment(&mut store);
    let process = eval(Number(1), env.clone(), &mut store);
    assert_eq!(run(process, &mut store), Number(1));

    let process = eval(RuntimeExpression::String(text("foo")), env, &mut store);
    assert_eq!(run(process, &mut store), RuntimeExpression::String(text("foo")));
}

#[test]
fn test_value_names() {
    let mut store = Store::new();
    let env = environment(&mut store);
    let process = eval(symbol("life"), env, &mut store);
    assert_eq!(run(process, &mut store), Number(42));
}

#[test]
fn test_lists() {
    let mut store = Store::new();
    let env = environment(&mut store);
    let expression = List(vec![Number(1), symbol("life")]);
    let process = eval(expression, env, &mut store);
    assert_eq!(run(process, &mut store), List(vec![Number(1), Number(42)]));
}

#[test]
fn test_builtin_function_call() {
    let mut store = Store::new();
    let env = environment(&mut store);
    let expression = call("add", vec![symbol("life"), Number(1)]);
    let process = eval(expression, env, &mut store);
    assert_eq!(run(process, &mut store), Number(43));
}

#[test]
fn test_user_defined_function_call() {
    let mut store = Store::new();
    let env = environment_with_fn(&mut store);
    let expression = call("list-nums", vec![symbol("life")]);
    let process = eval(expression, env, &mut store);
    let actual = run(process, &mut store);
    let expected = List(vec![Number(1), Number(2), Number(3), Number(42)]);
    assert_eq!(expected, actual)
}

#[test]
fn test_builtin_macro_call() {
    let mut store = Store::new();
    let env = environment(&mut store);
    let expression = MacroCall(text("Quote"), vec![List(vec![Number(2), symbol("unbound")])]);
    let process = eval(expression, env, &mut store);
    let actual = run(process, &mut store);
    let expected = List(vec![Number(2), symbol("unbound")]);
    assert_eq!(expected, actual);
}

#[test]
fn test_user_defined_macro_call() {
    let mut store = Store::new();
    let env = environment(&mut store);
    let expression = MacroCall(text("ignore"), vec![Number(1), Number(2)]);
    let process = eval(expression, env, &mut store);
    let actual = run(process, &mut store);
    let expected = Number(42);
    assert_eq!(expected, actual);
}

#[test]
fn values_that_are_not_code_evaluate_to_themselves() {
    let mut store = Store::new();
    let env = environment(&mut store);
    for value in [
        Keyword(text("k")),
        Hole,
        BuiltinFunction(Builtin::Log),
        BuiltinMacro(vec![text("value")], NativeMacro::Quote),
        Function(vec![], Environment::new(), vec![Number(1)]),
        Macro(vec![], Environment::new(), vec![Number(1)]),
        Definition(text("d"), Box::new(Number(1))),
    ] {
        assert_eq!(
            eval(value.clone(), env.clone(), &mut store),
            Process::Complete(value)
        );
    }
}

#[test]
fn an_unbound_symbol_is_a_not_found_error() {
    let mut store = Store::new();
    let env = environment(&mut store);
    assert_eq!(
        eval(symbol("nothing"), env, &mut store),
        Process::Complete(failure("not-found", "nothing not found"))
    );
}

#[test]
fn a_call_of_an_unbound_name_is_a_not_found_error() {
    let mut store = Store::new();
    let env = environment(&mut store);
    assert_eq!(
        eval(call("nothing", vec![Number(1)]), env, &mut store),
        Process::Complete(failure("not-found", "No function 'nothing' found"))
    );
}

#[test]
fn a_call_of_a_value_that_is_no_function_is_an_invalid_application() {
    let mut store = Store::new();
    let env = environment(&mut store);
    let expected = failure(
        "invalid-application",
        "You've called an invalid value as a function",
    );
    assert_eq!(
        eval(call("life", vec![Number(1)]), env.clone(), &mut store),
        Process::Complete(expected.clone())
    );
    assert_eq!(
        eval(
            TaggedTuple(Box::new(Number(1)), vec![Number(1)]),
            env,
            &mut store
        ),
        Process::Complete(expected.clone())
    );
    assert_eq!(
        apply(Number(1), vec![], &mut store),
        Process::Complete(expected)
    );
}

#[test]
fn a_keyword_tag_builds_data_from_evaluated_arguments() {
    let mut store = Store::new();
    let env = environment(&mut store);
    let expression = TaggedTuple(
        Box::new(Keyword(text("point"))),
        vec![symbol("life"), Number(2)],
    );
    let process = eval(expression, env, &mut store);
    assert_eq!(
        run(process, &mut store),
        TaggedTuple(
            Box::new(Keyword(text("point"))),
            vec![Number(42), Number(2)]
        )
    );
}

#[test]
fn a_macro_call_of_an_unbound_name_is_a_not_found_error() {
    let mut store = Store::new();
    let env = environment(&mut store);
    assert_eq!(
        eval(MacroCall(text("Nothing"), vec![]), env.clone(), &mut store),
        Process::Complete(failure("not-found", "No macro of that name found"))
    );
    assert_eq!(
        eval(MacroCall(text("life"), vec![]), env, &mut store),
        Process::Complete(failure("not-found", "No macro of that name found"))
    );
}

#[test]
fn eval_of_a_call_evaluates_the_first_argument_and_defers_the_others() {
    let mut store = Store::new();
    let env = environment(&mut store);
    let process = eval(call("add", vec![Number(1), Number(2)]), env.clone(), &mut store);
    assert_eq!(
        process,
        Process::Running(Stepable::AndThen(
            Box::new(Process::Running(Stepable::Sequence(
                vec![
                    Process::Complete(Number(1)),
                    Process::Running(Stepable::Evaluate(Number(2), env)),
                ],
                vec![]
            ))),
            Continuation::Apply(BuiltinFunction(Builtin::Add))
        ))
    );
}

#[test]
fn apply_binds_parameters_in_a_child_of_the_closed_over_environment() {
    let mut store = Store::new();
    let closed_over = Environment::new().add(text("x"), Number(1), &mut store);
    let function = Function(
        vec![text("x"), text("y")],
        closed_over.clone(),
        vec![List(vec![symbol("x"), symbol("y")])],
    );
    let process = apply(function, vec![Number(10), Number(20)], &mut store);
    assert_eq!(run(process, &mut store), List(vec![Number(10), Number(20)]));
    assert_eq!(closed_over.get("x", &store), Some(Number(1)));
    assert_eq!(closed_over.get("y", &store), None);
}

#[test]
fn apply_with_the_wrong_number_of_arguments_is_an_argument_error() {
    let mut store = Store::new();
    let function = Function(vec![text("x")], Environment::new(), vec![symbol("x")]);
    let expected = failure(
        "argument",
        "The function was called with the wrong number of arguments",
    );
    assert_eq!(
        apply(function.clone(), vec![], &mut store),
        Process::Complete(expected.clone())
    );
    assert_eq!(
        apply(function, vec![Number(1), Number(2)], &mut store),
        Process::Complete(expected)
    );
}

#[test]
fn apply_of_a_function_without_body_is_an_error() {
    let mut store = Store::new();
    let function = Function(vec![], Environment::new(), vec![]);
    assert_eq!(
        apply(function, vec![], &mut store),
        Process::Complete(failure("invalid-application", "The function has no body"))
    );
}

#[test]
fn apply_returns_the_process_of_a_single_body_expression_unwrapped() {
    let mut store = Store::new();
    let function = Function(vec![], Environment::new(), vec![Number(1)]);
    assert_eq!(
        apply(function, vec![], &mut store),
        Process::Running(Stepable::Evaluate(Number(1), Environment::new()))
    );
}

#[test]
fn macro_expand_of_a_value_that_is_no_macro_is_an_error() {
    let mut store = Store::new();
    assert_eq!(
        macro_expand(Number(1), vec![], Environment::new(), &mut store),
        Process::Complete(failure("invalid-macro-expand", "Not a macro"))
    );
    assert_eq!(
        macro_expand(
            Macro(vec![], Environment::new(), vec![]),
            vec![],
            Environment::new(),
            &mut store
        ),
        Process::Complete(failure("invalid-macro-expand", "The macro has no body"))
    );
}

#[test]
fn macro_expand_binds_the_syntax_of_the_arguments() {
    let mut store = Store::new();
    let swap = Macro(
        vec![text("left"), text("right")],
        Environment::new(),
        vec![MacroCall(
            text("Quote"),
            vec![List(vec![
                MacroCall(text("Unquote"), vec![symbol("right")]),
                MacroCall(text("Unquote"), vec![symbol("left")]),
            ])],
        )],
    );
    let env = environment(&mut store);
    let closed = match swap {
        Macro(parameters, _, body) => Macro(parameters, env.clone(), body),
        other => other,
    };
    let process = macro_expand(
        closed,
        vec![symbol("life"), call("add", vec![Number(1), Number(2)])],
        env,
        &mut store,
    );
    assert_eq!(
        run(process, &mut store),
        List(vec![call("add", vec![Number(1), Number(2)]), symbol("life")])
    );
}

#[test]
fn quote_leaves_scalars_as_they_are() {
    for value in [
        Number(1),
        RuntimeExpression::String(text("s")),
        Keyword(text("k")),
        symbol("unbound"),
        Hole,
        BuiltinFunction(Builtin::Add),
    ] {
        let mut store = Store::new();
        assert_eq!(
            quote(value.clone(), Environment::new(), &mut store),
            Process::Complete(value)
        );
    }
}

#[test]
fn quote_rebuilds_structure_without_evaluating_it() {
    let mut store = Store::new();
    let env = environment(&mut store);
    let value = List(vec![
        symbol("life"),
        call("add", vec![Number(1), symbol("life")]),
        MacroCall(text("Package"), vec![symbol("life")]),
        Definition(text("d"), Box::new(symbol("life"))),
    ]);
    let process = quote(value.clone(), env, &mut store);
    assert_eq!(run(process, &mut store), value);
}

#[test]
fn quote_evaluates_what_is_unquoted() {
    let mut store = Store::new();
    let env = environment(&mut store);
    let value = List(vec![
        Number(1),
        MacroCall(text("Unquote"), vec![symbol("life")]),
        Number(3),
        symbol("life"),
    ]);
    let process = quote(value, env, &mut store);
    assert_eq!(
        run(process, &mut store),
        List(vec![Number(1), Number(42), Number(3), symbol("life")])
    );
}

#[test]
fn quote_evaluates_the_unquoted_expression_once() {
    let mut store = Store::new();
    let env = Environment::from(&vec![(text("log"), BuiltinFunction(Builtin::Log))], &mut store);
    let value = List(vec![
        call("log", vec![Number(1)]),
        MacroCall(text("Unquote"), vec![call("log", vec![Number(2)])]),
    ]);
    let process = quote(value, env, &mut store);
    assert_eq!(
        run(process, &mut store),
        List(vec![call("log", vec![Number(1)]), Number(2)])
    );
    assert_eq!(store.output(), &vec![text("2")]);
}

#[test]
fn unquote_without_an_argument_is_an_argument_error() {
    let mut store = Store::new();
    assert_eq!(
        quote(MacroCall(text("Unquote"), vec![]), Environment::new(), &mut store),
        Process::Complete(failure("argument", "Unquote takes exactly 1 argument"))
    );
}

fn natives(store: &mut Store) -> Environment {
    nana::standard_library::builtins(store)
}

#[test]
fn native_macros_check_the_number_of_their_arguments() {
    let mut store = Store::new();
    let env = natives(&mut store);
    let cases = [
        ("Def", vec![symbol("x")], "Def takes exactly 2 arguments"),
        ("Match", vec![Number(1)], "Match takes exactly 2 arguments"),
        ("Fn", vec![List(vec![])], "Fn takes exactly 2 arguments"),
        ("Macro", vec![], "Macro takes exactly 2 arguments"),
        (
            "Quote",
            vec![Number(1), Number(2)],
            "Quote takes exactly 1 argument",
        ),
    ];
    for (name, arguments, message) in cases {
        assert_eq!(
            eval(MacroCall(text(name), arguments), env.clone(), &mut store),
            Process::Complete(failure("argument", message)),
            "{}",
            name
        );
    }
}

#[test]
fn def_prepares_the_name_and_evaluates_the_value_in_the_call() {
    let mut store = Store::new();
    let env = natives(&mut store);
    let cells = store.size();
    let process = eval(
        MacroCall(text("Def"), vec![symbol("x"), Number(1)]),
        env.clone(),
        &mut store,
    );
    assert_eq!(store.size(), cells + 1);
    match &process {
        Process::Running(Stepable::AndThen(inner, Continuation::Provide(name, child))) => {
            assert_eq!(name, "x");
            assert!(child.binds("x"));
            assert_eq!(child.get("x", &store), None);
            assert!(!env.binds("x"));
            assert_eq!(**inner, Process::Complete(Number(1)));
        }
        _ => assert!(false),
    }
    assert_eq!(
        run(process, &mut store),
        Definition(text("x"), Box::new(Number(1)))
    );
}

#[test]
fn the_continuation_of_def_fills_the_cell_once() {
    let mut store = Store::new();
    let env = Environment::new().prepare(text("x"), &mut store);
    let first = Continuation::Provide(text("x"), env.clone()).resume(Number(1), &mut store);
    assert_eq!(
        first,
        Process::Complete(Definition(text("x"), Box::new(Number(1))))
    );
    assert_eq!(env.get("x", &store), Some(Number(1)));
    let second = Continuation::Provide(text("x"), env.clone()).resume(Number(2), &mut store);
    assert_eq!(
        second,
        Process::Complete(Definition(text("x"), Box::new(Number(2))))
    );
    assert_eq!(env.get("x", &store), Some(Number(1)));
}

#[test]
fn continuations_build_values_around_results() {
    let mut store = Store::new();
    let env = Environment::new();
    let results = List(vec![Number(1), symbol("a")]);
    assert_eq!(
        Continuation::Function(vec![text("p")], env.clone()).resume(results.clone(), &mut store),
        Process::Complete(Function(
            vec![text("p")],
            env.clone(),
            vec![Number(1), symbol("a")]
        ))
    );
    assert_eq!(
        Continuation::Macro(vec![text("p")], env.clone()).resume(results.clone(), &mut store),
        Process::Complete(Macro(
            vec![text("p")],
            env.clone(),
            vec![Number(1), symbol("a")]
        ))
    );
    assert_eq!(
        Continuation::MacroCall(text("M")).resume(results.clone(), &mut store),
        Process::Complete(MacroCall(text("M"), vec![Number(1), symbol("a")]))
    );
    assert_eq!(
        Continuation::Apply(BuiltinFunction(Builtin::Add))
            .resume(List(vec![Number(1), Number(2)]), &mut store),
        Process::Complete(Number(3))
    );
    let bound = env.add(text("a"), Number(5), &mut store);
    assert_eq!(
        Continuation::Evaluate(bound).resume(symbol("a"), &mut store),
        Process::Complete(Number(5))
    );
    for continuation in [
        Continuation::Function(vec![], Environment::new()),
        Continuation::Macro(vec![], Environment::new()),
        Continuation::MacroCall(text("M")),
        Continuation::Apply(BuiltinFunction(Builtin::Add)),
    ] {
        assert_eq!(
            continuation.resume(Number(1), &mut store),
            Process::Complete(failure(
                "argument",
                "The results of a sequence must come as a list"
            ))
        );
    }
}

#[test]
fn spawn_hands_a_process_to_the_scheduler() {
    let mut store = Store::new();
    let function = Function(vec![], Environment::new(), vec![Number(1), Number(2)]);
    let process = apply(BuiltinFunction(Builtin::Spawn), vec![function], &mut store);
    assert_eq!(
        process,
        Process::Spawn(
            Box::new(Process::Complete(Keyword(text("process-spawned")))),
            vec![Process::Running(Stepable::SequenceTco(
                Box::new(Process::Complete(Number(1))),
                vec![Process::Running(Stepable::Evaluate(
                    Number(2),
                    Environment::new()
                ))]
            ))]
        )
    );
    let schedule = Process::round_robin(vec![process], &mut store, BUDGET);
    assert!(schedule.is_done());
    assert_eq!(
        schedule.completed,
        vec![Keyword(text("process-spawned")), Number(2)]
    );
}

#[test]
fn a_spawned_function_with_parameters_fails_in_its_own_process() {
    let mut store = Store::new();
    let function = Function(vec![text("x")], Environment::new(), vec![symbol("x")]);
    let process = apply(BuiltinFunction(Builtin::Spawn), vec![function], &mut store);
    let schedule = Process::round_robin(vec![process], &mut store, BUDGET);
    assert_eq!(
        schedule.completed,
        vec![
            failure(
                "argument",
                "The function was called with the wrong number of arguments"
            ),
            Keyword(text("process-spawned")),
        ]
    );
}

#[test]
fn a_spawn_inside_a_call_reaches_the_scheduler() {
    let mut store = Store::new();
    let env = natives(&mut store);
    let thunk = MacroCall(text("Fn"), vec![List(vec![]), Keyword(text("spawned"))]);
    let expression = List(vec![call("spawn", vec![thunk]), Number(2)]);
    let process = eval(expression, env, &mut store);
    let schedule = Process::round_robin(vec![process], &mut store, BUDGET);
    assert!(schedule.is_done());
    assert_eq!(
        schedule.completed,
        vec![
            Keyword(text("spawned")),
            List(vec![Keyword(text("process-spawned")), Number(2)])
        ]
    );
}

#[test]
fn eval_of_a_list_evaluates_every_item_in_the_call() {
    let mut store = Store::new();
    let env = natives(&mut store);
    let list = List(vec![Number(1), call("add", vec![Number(1), Number(2)]), symbol("nothing")]);
    assert_eq!(
        eval(list, env.clone(), &mut store),
        Process::Running(Stepable::Sequence(
            vec![
                Process::Running(Stepable::AndThen(
                    Box::new(Process::Running(Stepable::Sequence(
                        vec![
                            Process::Complete(Number(1)),
                            Process::Running(Stepable::Evaluate(Number(2), env)),
                        ],
                        vec![]
                    ))),
                    Continuation::Apply(BuiltinFunction(Builtin::Add))
                )),
                Process::Complete(failure("not-found", "nothing not found")),
            ],
            vec![Number(1)]
        ))
    );
}

#[test]
fn eval_of_a_list_leaves_the_step_of_a_running_first_item() {
    let mut store = Store::new();
    let env = natives(&mut store);
    let list = List(vec![call("add", vec![]), Number(2)]);
    assert_eq!(
        eval(list, env, &mut store),
        Process::Running(Stepable::Sequence(
            vec![
                Process::Running(Stepable::AndThen(
                    Box::new(Process::Complete(List(vec![]))),
                    Continuation::Apply(BuiltinFunction(Builtin::Add))
                )),
                Process::Complete(Number(2)),
            ],
            vec![]
        ))
    );
}

#[test]
fn apply_evaluates_the_first_expression_of_a_longer_body_in_the_call() {
    let mut store = Store::new();
    let function = Function(vec![text("x")], Environment::new(), vec![symbol("x"), Number(2)]);
    let process = apply(function, vec![Number(7)], &mut store);
    match process {
        Process::Running(Stepable::SequenceTco(first, rest)) => {
            assert_eq!(*first, Process::Complete(Number(7)));
            assert_eq!(rest.len(), 1);
        }
        _ => assert!(false),
    }
}

#[test]
fn macro_expand_evaluates_the_first_expression_of_a_longer_body_in_the_call() {
    let mut store = Store::new();
    let expander = Macro(vec![text("x")], Environment::new(), vec![symbol("x"), Number(2)]);
    let process = macro_expand(expander.clone(), vec![symbol("a")], Environment::new(), &mut store);
    match process {
        Process::Running(Stepable::SequenceTco(first, rest)) => {
            assert_eq!(*first, Process::Complete(symbol("a")));
            assert_eq!(rest.len(), 1);
        }
        _ => assert!(false),
    }
    let env = Environment::new().add(text("M"), expander, &mut store);
    let process = eval(MacroCall(text("M"), vec![symbol("a")]), env, &mut store);
    match process {
        Process::Running(Stepable::AndThen(inner, Continuation::Evaluate(_))) => match *inner {
            Process::Running(Stepable::SequenceTco(first, rest)) => {
                assert!(matches!(
                    *first,
                    Process::Running(Stepable::Evaluate(Symbol(_), _))
                ));
                assert_eq!(rest.len(), 1);
            }
            _ => assert!(false),
        },
        _ => assert!(false),
    }
}

#[test]
fn a_macro_that_expands_to_its_own_call_does_not_hold_eval_up() {
    let mut store = Store::new();
    let env = Environment::new().prepare(text("M"), &mut store);
    let again = Macro(
        vec![],
        env.clone(),
        vec![List(vec![MacroCall(text("M"), vec![])])],
    );
    env.provide("M", again, &mut store).expect("the cell was prepared");
    let process = eval(List(vec![MacroCall(text("M"), vec![])]), env, &mut store);
    let schedule = Process::round_robin(vec![process], &mut store, 100);
    assert!(!schedule.is_done());
}

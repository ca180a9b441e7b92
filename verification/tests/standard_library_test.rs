use nana::environment::{Environment, Store};
use nana::execution::{execute, execute_once};
use nana::expressions::RuntimeExpression::{
    self, Keyword, List, Macro, Number, String as NString, Symbol, TaggedTuple,
};
use nana::helpers::strip_functions;
use nana::standard_library::{builtins, standard_library};

const BUDGET: usize = 100_000;

const PRELUDE: &str = r#"
# The escape from a quotation. Outside of one it stands for its argument.
Def "Unquote" Macro [value] value

# Defines a function under a name.
Def "Func" Macro [name params body]
  Quote Def Unquote name Fn Unquote params Unquote body

# Defines a macro under a name.
Def "Defmacro" Macro [name params body]
  Quote Def Unquote name Macro Unquote params Unquote body
"#;

fn s(text: &str) -> String {
    text.to_string()
}

fn library(store: &mut Store) -> Environment {
    standard_library(PRELUDE, store, BUDGET)
        .expect("the prelude expands")
        .expect("the prelude runs to its end")
}

fn run(program: &str, environment: Environment, store: &mut Store) -> Vec<RuntimeExpression> {
    execute_once(s(program), environment, store, BUDGET)
        .expect("the program expands")
        .expect("the program runs to its end")
}

fn failure(variety: &str, message: &str) -> RuntimeExpression {
    TaggedTuple(
        Box::new(Keyword(s("error"))),
        vec![Keyword(s(variety)), NString(s(message))],
    )
}

#[test]
fn core_test_test_fn_macro() {
    let mut store = Store::new();
    let library = library(&mut store);
    let second = run("Fn [a b] b", library, &mut store).remove(0);
    let environment = Environment::from(&vec![(s("second"), second)], &mut store);

    let expected = vec![Number(2)];
    let actual = run("second(1 2)", environment, &mut store);
    assert_eq!(expected, actual);
}

#[test]
fn core_test_test_match_macro() {
    let mut store = Store::new();
    let library = library(&mut store);
    let result = run("Match 3 [1 2 3 4 5 6]", library, &mut store).remove(0);
    let environment = Environment::from(&vec![(s("result"), result)], &mut store);

    let expected = vec![Number(4)];
    let actual = run("result", environment, &mut store);
    assert_eq!(expected, actual);
}

#[test]
fn core_test_test_match_eval() {
    let mut store = Store::new();
    let bindings = Environment::from(
        &vec![(s("foo"), Number(1)), (s("bar"), Number(3))],
        &mut store,
    );
    let environment = library(&mut store).union(bindings);
    let program = "Match foo [1 bar]";
    let expected = vec![Number(3)];
    let actual = run(program, environment, &mut store);
    assert_eq!(expected, actual);
}

#[test]
fn core_test_test_match_binding() {
    let mut store = Store::new();
    let environment = library(&mut store);
    let program = "Match 1 [num num]";
    let expected = vec![Number(1)];
    let actual = run(program, environment, &mut store);
    assert_eq!(expected, actual);
}

#[test]
fn core_test_test_value_definitions() {
    let mut store = Store::new();
    let program = "
        Def result 1
        result
    ";
    let library = library(&mut store);
    let actual = run(program, library, &mut store);
    let expected = vec![Number(1), Number(1)];
    assert_eq!(expected, actual);
}

#[test]
fn core_test_test_recursive_function_definitions() {
    let mut store = Store::new();
    let program = r#"
    Def recur-once
      Fn [n]
        Match n
          [1 "done"
           _ recur-once(1)]
    
    recur-once(2)"#;
    let library = library(&mut store);
    let actual = run(program, library, &mut store).pop().unwrap();
    let expected = NString(s("done"));
    assert_eq!(expected, actual);
}

#[test]
fn core_test_test_macro() {
    let mut store = Store::new();
    let program = r#"Macro [a b] b"#;
    let library = library(&mut store);
    let mut actual = run(program, library, &mut store);
    assert!(match actual.remove(0) {
        Macro(args, _, body) => {
            assert_eq!(vec![s("a"), s("b")], args);
            assert_eq!(vec![Symbol(s("b"))], body);
            true
        }
        _ => false,
    });
}

#[test]
fn test_func() {
    let mut store = Store::new();
    let program = r#"
    Func first [a b]
        a
    
    first(1 2)"#;
    let library = library(&mut store);
    let actual = strip_functions(run(program, library, &mut store));
    let expected = vec![Number(1)];
    assert_eq!(expected, actual);
}

#[test]
fn standard_library_test_test_fn_macro() {
    let mut store = Store::new();
    let natives = builtins(&mut store);
    let second = run("Fn [a b] b", natives, &mut store).remove(0);
    let environment = Environment::from(&vec![(s("second"), second)], &mut store);

    let expected = vec![Number(2)];
    let actual = run("second(1 2)", environment, &mut store);
    assert_eq!(expected, actual);
}

#[test]
fn standard_library_test_test_match_macro() {
    let mut store = Store::new();
    let natives = builtins(&mut store);
    let result = run("Match 3 [1 2 3 4 5 6]", natives, &mut store).remove(0);
    let environment = Environment::from(&vec![(s("result"), result)], &mut store);

    let expected = vec![Number(4)];
    let actual = run("result", environment, &mut store);
    assert_eq!(expected, actual);
}

#[test]
fn standard_library_test_test_match_eval() {
    let mut store = Store::new();
    let bindings = Environment::from(
        &vec![(s("foo"), Number(1)), (s("bar"), Number(3))],
        &mut store,
    );
    let environment = builtins(&mut store).union(bindings);
    let program = "Match foo [1 bar]";
    let expected = vec![Number(3)];
    let actual = run(program, environment, &mut store);
    assert_eq!(expected, actual);
}

#[test]
fn standard_library_test_test_match_binding() {
    let mut store = Store::new();
    let environment = builtins(&mut store);
    let program = "Match 1 [num num]";
    let expected = vec![Number(1)];
    let actual = run(program, environment, &mut store);
    assert_eq!(expected, actual);
}

#[test]
fn standard_library_test_test_value_definitions() {
    let mut store = Store::new();
    let program = "
        Def result 1
        result
    ";
    let natives = builtins(&mut store);
    let actual = run(program, natives, &mut store);
    let expected = vec![Number(1), Number(1)];
    assert_eq!(expected, actual);
}

#[test]
fn standard_library_test_test_recursive_function_definitions() {
    let mut store = Store::new();
    let program = r#"
    Def recur-once
      Fn [n]
        Match n
          [1 "done"
           _ recur-once(1)]
    
    recur-once(2)"#;
    let natives = builtins(&mut store);
    let actual = run(program, natives, &mut store).pop().unwrap();
    let expected = NString(s("done"));
    assert_eq!(expected, actual);
}

#[test]
fn standard_library_test_test_macro() {
    let mut store = Store::new();
    let program = r#"Macro [a b] b"#;
    let natives = builtins(&mut store);
    let actual = run(program, natives.clone(), &mut store);
    let expected = vec![Macro(vec![s("a"), s("b")], natives, vec![Symbol(s("b"))])];
    assert_eq!(expected, actual);
}

#[test]
fn a_function_sees_its_own_definition() {
    let mut store = Store::new();
    let program = r#"
    Def countdown
      Fn [n]
        Match n
          [0 "base"
           _ countdown(decrement(n))]

    countdown(5)"#;
    let natives = builtins(&mut store);
    let actual = run(program, natives, &mut store).pop().unwrap();
    assert_eq!(actual, NString(s("base")));
}

#[test]
fn a_definition_sees_itself_when_its_value_takes_several_steps() {
    let mut store = Store::new();
    let program = r#"
    Def countdown
      Match 1
        [1 Fn [n]
             Match n
               [0 "base"
                _ countdown(decrement(n))]]

    countdown(3)"#;
    let natives = builtins(&mut store);
    let actual = run(program, natives, &mut store).pop().unwrap();
    assert_eq!(actual, NString(s("base")));
}

#[test]
fn a_definition_fills_its_cell_when_the_value_is_there() {
    let mut store = Store::new();
    let natives = builtins(&mut store);
    assert_eq!(
        run("Def both [1 add(1 1)]\nboth", natives, &mut store),
        vec![
            List(vec![Number(1), Number(2)]),
            List(vec![Number(1), Number(2)])
        ]
    );
}

#[test]
fn a_tail_call_does_not_deepen_the_process() {
    let mut store = Store::new();
    let program = r#"
    Def countdown
      Fn [n]
        Match n
          [0 :done
           _ countdown(decrement(n))]

    countdown(20000)"#;
    let natives = builtins(&mut store);
    let actual = execute_once(s(program), natives, &mut store, 10_000_000)
        .expect("the program expands")
        .expect("the program runs to its end")
        .pop()
        .unwrap();
    assert_eq!(actual, Keyword(s("done")));
}

#[test]
fn match_takes_the_first_case_that_matches() {
    let mut store = Store::new();
    let natives = builtins(&mut store);
    assert_eq!(
        run("Match 3 [3 :first 3 :second _ :third]", natives, &mut store),
        vec![Keyword(s("first"))]
    );
}

#[test]
fn match_rejects_a_case_whose_variable_meets_two_values() {
    let mut store = Store::new();
    let natives = builtins(&mut store);
    assert_eq!(
        run(
            "Match [1 2] [[x x] :same [x y] [y x]]",
            natives.clone(),
            &mut store
        ),
        vec![List(vec![Number(2), Number(1)])]
    );
    assert_eq!(
        run("Match [2 2] [[x x] x [x y] :different]", natives, &mut store),
        vec![Number(2)]
    );
}

#[test]
fn match_without_a_matching_case_is_an_error() {
    let mut store = Store::new();
    let natives = builtins(&mut store);
    assert_eq!(
        run("Match 3 [1 2]", natives, &mut store),
        vec![TaggedTuple(
            Box::new(Keyword(s("error"))),
            vec![Keyword(s("no-match-found"))]
        )]
    );
}

#[test]
fn match_with_an_odd_number_of_cases_is_an_argument_error() {
    let mut store = Store::new();
    let natives = builtins(&mut store);
    assert_eq!(
        run("Match 3 [1 2 3]", natives.clone(), &mut store),
        vec![failure(
            "argument",
            "Match cases must be a list with an even number of elements"
        )]
    );
    assert_eq!(
        run("Match 3 4", natives, &mut store),
        vec![failure("argument", "Match takes a value and a list of cases")]
    );
}

#[test]
fn match_binds_in_the_body_only() {
    let mut store = Store::new();
    let natives = builtins(&mut store);
    assert_eq!(
        run("Match [1 [2 3]] [[a [b c]] [c b a]]\na", natives, &mut store),
        vec![
            List(vec![Number(3), Number(2), Number(1)]),
            failure("not-found", "a not found")
        ]
    );
}

#[test]
fn def_takes_a_symbol_or_a_string_as_the_name() {
    let mut store = Store::new();
    let natives = builtins(&mut store);
    assert_eq!(
        run("Def \"Answer\" 42\nDef 1 2", natives, &mut store),
        vec![Number(42), failure("argument", "Def takes a symbol and a value")]
    );
}

#[test]
fn arithmetic_on_numbers() {
    let mut store = Store::new();
    let natives = builtins(&mut store);
    assert_eq!(
        run(
            "add(2 3) subtract(7 2) multiply(4 5) divide(17 5) remainder(17 5) decrement(8)",
            natives,
            &mut store
        ),
        vec![
            Number(5),
            Number(5),
            Number(20),
            Number(3),
            Number(2),
            Number(7)
        ]
    );
}

#[test]
fn arithmetic_outside_the_numbers_is_an_argument_error() {
    let mut store = Store::new();
    let natives = builtins(&mut store);
    assert_eq!(
        run(
            "add(340282366920938463463374607431768211455 1) subtract(1 2) \
             multiply(340282366920938463463374607431768211455 2) divide(1 0) remainder(1 0) \
             decrement(0)",
            natives,
            &mut store
        ),
        vec![
            failure("argument", "add went above the largest number"),
            failure("argument", "subtract went below zero"),
            failure("argument", "multiply went above the largest number"),
            failure("argument", "divide by zero"),
            failure("argument", "remainder by zero"),
            failure("argument", "decrement went below zero"),
        ]
    );
}

#[test]
fn arithmetic_on_the_wrong_arguments_is_an_argument_error() {
    let mut store = Store::new();
    let natives = builtins(&mut store);
    assert_eq!(
        run(
            "add(1) subtract(1 :two) multiply() divide(1 2 3) remainder(\"1\" 2) decrement(1 2) \
             decrement(:one) log() spawn() spawn(1)",
            natives,
            &mut store
        ),
        vec![
            failure("argument", "add takes exactly 2 numbers"),
            failure("argument", "subtract takes exactly 2 numbers"),
            failure("argument", "multiply takes exactly 2 numbers"),
            failure("argument", "divide takes exactly 2 numbers"),
            failure("argument", "remainder takes exactly 2 numbers"),
            failure("argument", "decrement takes exactly 1 number"),
            failure("argument", "decrement takes exactly 1 number"),
            failure("argument", "log takes at least 1 argument"),
            failure(
                "argument",
                "spawn takes 1 function (with no arguments) as an argument"
            ),
            failure(
                "argument",
                "spawn takes 1 function (with no arguments) as an argument"
            ),
        ]
    );
}

#[test]
fn log_records_its_arguments_and_returns_the_first() {
    let mut store = Store::new();
    let natives = builtins(&mut store);
    assert_eq!(
        run("log(1 :two \"three\")\nlog([4])", natives, &mut store),
        vec![Number(1), List(vec![Number(4)])]
    );
    assert_eq!(store.output(), &vec![s("1 :two \"three\""), s("[4]")]);
}

#[test]
fn fn_and_macro_take_a_list_of_symbols() {
    let mut store = Store::new();
    let natives = builtins(&mut store);
    assert_eq!(
        run("Fn [a 1] a\nFn a a\nMacro [:a] a\nMacro 1 2", natives, &mut store),
        vec![
            failure("argument", "Func params must be ValueNames"),
            failure(
                "argument",
                "Fn takes a list of params and a single body expression"
            ),
            failure("argument", "Macro params must be symbols"),
            failure(
                "argument",
                "Macro takes a list of params and a single body expression"
            ),
        ]
    );
}

#[test]
fn quote_and_unquote() {
    let mut store = Store::new();
    let library = library(&mut store);
    assert_eq!(
        run(
            "Def life 42\nQuote [1 Unquote life 3 foo]\nQuote decrement(life)\nUnquote life",
            library,
            &mut store
        ),
        vec![
            Number(42),
            List(vec![Number(1), Number(42), Number(3), Symbol(s("foo"))]),
            TaggedTuple(Box::new(Symbol(s("decrement"))), vec![Symbol(s("life"))]),
            Number(42),
        ]
    );
}

#[test]
fn a_macro_defined_by_a_form_is_known_to_the_next() {
    let mut store = Store::new();
    let library = library(&mut store);
    let results = strip_functions(run(
        "Defmacro \"Twice\" [form] Quote [Unquote form Unquote form]\nTwice add(1 2)",
        library,
        &mut store,
    ));
    assert_eq!(results, vec![List(vec![Number(3), Number(3)])]);
}

#[test]
fn test_spawn_2_and_loop() {
    let mut store = Store::new();
    let natives = builtins(&mut store);
    let program = r#"
    Def loop
      Fn [name n]
        Match n
          [0 [name :done]
           _ loop(name decrement(n))]

    spawn(Fn [] loop(:a 3))
    spawn(Fn [] loop(:b 1))
    loop(:c 5)"#;
    let run = execute(s(program), natives, &mut store, BUDGET).expect("the program expands");
    assert!(run.is_done());
    let results: Vec<Vec<RuntimeExpression>> = run
        .completed
        .into_iter()
        .map(|(results, _)| strip_functions(results))
        .collect();
    assert_eq!(
        results,
        vec![
            vec![List(vec![Keyword(s("b")), Keyword(s("done"))])],
            vec![List(vec![Keyword(s("a")), Keyword(s("done"))])],
            vec![
                Keyword(s("process-spawned")),
                Keyword(s("process-spawned")),
                List(vec![Keyword(s("c")), Keyword(s("done"))]),
            ]
        ]
    );
}

#[test]
fn builtins_binds_the_native_functions_and_macros() {
    let mut store = Store::new();
    let natives = builtins(&mut store);
    for name in [
        "log",
        "add",
        "subtract",
        "multiply",
        "divide",
        "remainder",
        "decrement",
        "spawn",
        "time",
        "panic",
        "Def",
        "Match",
        "Fn",
        "Quote",
        "Macro",
    ] {
        assert!(natives.get(name, &store).is_some(), "{}", name);
    }
    assert_eq!(store.size(), 15);
    assert!(natives.get("Unquote", &store).is_none());
}

#[test]
fn strip_functions_drops_functions_and_macros() {
    let values = vec![
        Number(1),
        RuntimeExpression::Function(vec![], Environment::new(), vec![]),
        Keyword(s("k")),
        Macro(vec![], Environment::new(), vec![]),
        List(vec![RuntimeExpression::Function(vec![], Environment::new(), vec![])]),
    ];
    assert_eq!(
        strip_functions(values),
        vec![
            Number(1),
            Keyword(s("k")),
            List(vec![RuntimeExpression::Function(vec![], Environment::new(), vec![])]),
        ]
    );
}

#[test]
fn time_reads_the_clock_that_the_host_set() {
    let mut store = Store::new();
    let natives = builtins(&mut store);
    assert_eq!(store.clock(), 0);
    store.set_clock(1_700_000_000_123);
    assert_eq!(
        run("time() time(1)", natives.clone(), &mut store),
        vec![
            Number(1_700_000_000_123),
            failure("argument", "time takes no arguments")
        ]
    );
    store.set_clock(1_700_000_000_456);
    assert_eq!(
        run("time()", natives, &mut store),
        vec![Number(1_700_000_000_456)]
    );
}

#[test]
fn panic_ends_with_an_error_that_shows_its_arguments() {
    let mut store = Store::new();
    let natives = builtins(&mut store);
    assert_eq!(
        run("panic(1 :two \"three\") panic() 4", natives, &mut store),
        vec![
            failure("panic", "Panic called with 1 :two \"three\""),
            failure("panic", "Panic called with "),
            Number(4)
        ]
    );
}

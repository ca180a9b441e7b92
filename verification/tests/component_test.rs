use nana::component::{Component, EvaluationError, Guest};
use nana::environment::Store;
use nana::example_tests;
use nana::execution::{
    execute, execute_once, execute_with_definitions, execute_with_definitions_and_process,
    Execution,
};
use nana::expressions::LexicalExpression;
use nana::expressions::RuntimeExpression::{
    self, Definition, Keyword, List, Number, String as NString, Symbol, TaggedTuple,
};
use nana::helpers::strip_functions;
use nana::parsers::macros::ExpansionError;
use nana::process::{Process, Stepable};
use nana::standard_library::{builtins, standard_library};

const BUDGET: usize = 100_000;

const PRELUDE: &str = r#"
# The escape from a quotation. Outside of one it stands for its argument.
Def "Unquote" Macro [value] value

# Defines a function under a name.
Def "Func" Macro [name params body]
  Quote Def Unquote name Fn Unquote params Unquote body

# Defines a macro under a name.
Def "Defmacro" Macro [name params body]
  Quote Def Unquote name Macro Unquote params Unquote body
"#;

const LEARN_X_IN_Y_MINUTES: &str = r#"
# Numbers and strings stand for themselves.
123
"This is a single line string."
"This is a multi line string.
It's worth noting that any indentation will be preserved."

# Lists hold values; keywords are names that stand for themselves.
[1 2 3]
[:north :south :east :west]

# Match takes the first case whose pattern matches.
Match 3 [1 "st" 2 "nd" 3 "rd" _ "th"]
add(3 5)
Match [1 2] [[1 second] second]
Match [:pair :pair] [[same same] "Matching pairs" _ "Different"]

# Def binds a name, and the name is known from the next form on.
Def life 42
life

# Functions can call themselves.
Def recur
  Fn [n]
    Match n
      [0 "done"
       _ recur(decrement(n))]
recur(3)

# Macros
Match 1 [one one]
Quote life
Quote decrement(life)
Quote foo(bar)

# Defmacro
Defmacro "Second" [first second] second
Second 1 2

# Unquote
Unquote life
Quote [1 Unquote life 3 foo]
Match life [42 :true _ :false]
"It's Tuesday!"
"#;

fn s(text: &str) -> String {
    text.to_string()
}

#[test]
fn test_learn_x_in_y_minutes() {
    let mut store = Store::new();
    let library = standard_library(PRELUDE, &mut store, BUDGET)
        .expect("the prelude expands")
        .expect("the prelude runs to its end");
    let results = execute_once(s(LEARN_X_IN_Y_MINUTES), library, &mut store, BUDGET)
        .expect("the program expands")
        .expect("the program runs to its end");
    let stripped = strip_functions(results);
    let expected = vec![
        Number(123),
        NString(s("This is a single line string.")),
        NString(s("This is a multi line string.\nIt's worth noting that any indentation will be preserved.")),
        List(vec![Number(1), Number(2), Number(3)]),
        List(vec![Keyword(s("north")), Keyword(s("south")), Keyword(s("east")), Keyword(s("west"))]),
        NString(s("rd")),
        Number(8),
        Number(2),
        NString(s("Matching pairs")),
        Number(42),
        Number(42),
        NString(s("done")),

        // Macros
        Number(1),
        Symbol(s("life")),
        TaggedTuple(Box::new(Symbol(s("decrement"))), vec![Symbol(s("life"))]),
        TaggedTuple(Box::new(Symbol(s("foo"))), vec![Symbol(s("bar"))]),

        // Defmacro
        Number(2),

        // Unquote
        Number(42),
        List(vec![Number(1), Number(42), Number(3), Symbol(s("foo"))]),
        Keyword(s("true")),
        NString(s("It's Tuesday!")),
    ];

    assert_eq!(expected, stripped);
}

#[test]
fn the_tutorial_check_looks_at_the_last_result() {
    let mut store = Store::new();
    let natives = builtins(&mut store);
    assert!(example_tests::test_learn_x_in_y_minutes(
        s("Def life 41\nadd(life 1)"),
        natives.clone(),
        &mut store,
        BUDGET
    ));
    assert!(!example_tests::test_learn_x_in_y_minutes(
        s("42 43"),
        natives.clone(),
        &mut store,
        BUDGET
    ));
    assert!(!example_tests::test_learn_x_in_y_minutes(s(""), natives.clone(), &mut store, BUDGET));
    assert!(!example_tests::test_learn_x_in_y_minutes(
        s("Unknown 42"),
        natives.clone(),
        &mut store,
        BUDGET
    ));
    assert!(!example_tests::test_learn_x_in_y_minutes(s("42"), natives, &mut store, 1));
}

#[test]
fn evaluate_prints_the_results_one_on_a_line() {
    let component = Component {
        prelude: s(PRELUDE),
        program: s(""),
        budget: BUDGET,
    };
    assert_eq!(
        component.evaluate(s("Def life 42\n[life :k \"s\"]\nFunc id [x] x\nid(7)")),
        Ok(s("42\n[42 :k \"s\"]\nFunction([x] _)\n7"))
    );
    assert_eq!(component.evaluate(s("")), Ok(s("")));
}

#[test]
fn evaluate_prints_what_spawned_processes_yield() {
    let component = Component {
        prelude: s(PRELUDE),
        program: s(""),
        budget: BUDGET,
    };
    assert_eq!(
        component.evaluate(s("spawn(Fn [] :spawned)\n:main")),
        Ok(s(
            ":process-spawned\n:main\n#-------- Results from processes in order of completion ----------------\n:spawned"
        ))
    );
}

#[test]
fn evaluate_reports_why_there_is_no_result() {
    let component = Component {
        prelude: s(PRELUDE),
        program: s(""),
        budget: BUDGET,
    };
    assert_eq!(
        component.evaluate(s("Nothing 1")),
        Err(EvaluationError::Program(ExpansionError::UndefinedMacro(s(
            "Nothing"
        ))))
    );
    let forever = "Def loop Fn [] loop()\nloop()";
    assert_eq!(
        component.evaluate(s(forever)),
        Err(EvaluationError::Unfinished)
    );
    let broken = Component {
        prelude: s("Broken 1"),
        program: s(""),
        budget: BUDGET,
    };
    assert_eq!(
        broken.evaluate(s("1")),
        Err(EvaluationError::Prelude(ExpansionError::UndefinedMacro(s(
            "Broken"
        ))))
    );
    let hasty = Component {
        prelude: s(PRELUDE),
        program: s(""),
        budget: 2,
    };
    assert_eq!(
        hasty.evaluate(s("1")),
        Err(EvaluationError::PreludeUnfinished)
    );
}

#[test]
fn each_form_sees_what_the_forms_before_it_defined() {
    let mut store = Store::new();
    let natives = builtins(&mut store);
    let run = execute(s("Def a 1\nDef b add(a 1)\n[a b]"), natives, &mut store, BUDGET)
        .expect("the program expands");
    assert!(run.is_done());
    assert_eq!(run.completed.len(), 1);
    let (results, environment) = &run.completed[0];
    assert_eq!(
        results,
        &vec![Number(1), Number(2), List(vec![Number(1), Number(2)])]
    );
    assert_eq!(environment.get("a", &store), Some(Number(1)));
    assert_eq!(environment.get("b", &store), Some(Number(2)));
}

#[test]
fn comments_between_forms_are_passed_over() {
    let mut store = Store::new();
    let natives = builtins(&mut store);
    assert_eq!(
        execute_once(
            s("# first\n1 # second\n# third\n2\n"),
            natives.clone(),
            &mut store,
            BUDGET
        ),
        Ok(Some(vec![Number(1), Number(2)]))
    );
    let execution = execute_with_definitions(
        vec![LexicalExpression::Comment, LexicalExpression::Number(1)],
        natives.clone(),
        vec![],
        &mut store,
    );
    assert_eq!(
        execution,
        Ok(Execution::Expanding(
            vec![LexicalExpression::Number(1)],
            natives,
            vec![]
        ))
    );
}

#[test]
fn a_program_is_read_as_far_as_it_is_one() {
    let mut store = Store::new();
    let natives = builtins(&mut store);
    assert_eq!(
        execute_once(s("1 2 ) 3"), natives, &mut store, BUDGET),
        Ok(Some(vec![Number(1), Number(2)]))
    );
}

#[test]
fn an_error_value_is_a_result_like_any_other() {
    let mut store = Store::new();
    let natives = builtins(&mut store);
    assert_eq!(
        execute_once(s("1 nothing 3"), natives, &mut store, BUDGET),
        Ok(Some(vec![
            Number(1),
            TaggedTuple(
                Box::new(Keyword(s("error"))),
                vec![Keyword(s("not-found")), NString(s("nothing not found"))]
            ),
            Number(3)
        ]))
    );
}

#[test]
fn a_form_that_cannot_be_expanded_ends_the_run() {
    let mut store = Store::new();
    let natives = builtins(&mut store);
    assert_eq!(
        execute(s("1 Nothing 2"), natives.clone(), &mut store, BUDGET),
        Err(ExpansionError::UndefinedMacro(s("Nothing")))
    );
    assert_eq!(
        execute(s("1 Def x"), natives, &mut store, BUDGET),
        Err(ExpansionError::MissingArgument(s("Def")))
    );
}

#[test]
fn an_execution_records_a_result_and_goes_on() {
    let mut store = Store::new();
    let natives = builtins(&mut store);
    let work = vec![LexicalExpression::Number(2)];
    assert_eq!(
        execute_with_definitions_and_process(
            work.clone(),
            natives.clone(),
            vec![Number(0)],
            Process::Complete(Number(1)),
            &mut store
        ),
        Execution::Expanding(work.clone(), natives.clone(), vec![Number(0), Number(1)])
    );
    let defined = execute_with_definitions_and_process(
        work.clone(),
        natives.clone(),
        vec![],
        Process::Complete(Definition(s("one"), Box::new(Number(1)))),
        &mut store,
    );
    match defined {
        Execution::Expanding(left, environment, results) => {
            assert_eq!(left, work);
            assert_eq!(results, vec![Number(1)]);
            assert_eq!(environment.get("one", &store), Some(Number(1)));
            assert_eq!(natives.get("one", &store), None);
        }
        _ => assert!(false),
    }
}

#[test]
fn an_execution_watches_what_its_form_spawns() {
    let mut store = Store::new();
    let natives = builtins(&mut store);
    let spawning = Process::Spawn(
        Box::new(Process::Complete(Number(1))),
        vec![Process::Complete(Number(2))],
    );
    assert_eq!(
        execute_with_definitions_and_process(vec![], natives.clone(), vec![], spawning, &mut store),
        Execution::Spawn(
            Box::new(Execution::Expanding(vec![], natives.clone(), vec![Number(1)])),
            vec![Execution::Evaluating(
                vec![],
                natives,
                vec![],
                Stepable::Deferred(Box::new(Process::Complete(Number(2))))
            )]
        )
    );
}

#[test]
fn a_run_can_be_taken_up_again() {
    let mut store = Store::new();
    let natives = builtins(&mut store);
    let run = execute(s("add(1 2) add(3 4)"), natives, &mut store, 3).expect("the program expands");
    assert!(!run.is_done());
    assert!(run.completed.is_empty());
    let run = Execution::round_robin(run.active, &mut store, BUDGET).expect("the program expands");
    assert!(run.is_done());
    let results: Vec<RuntimeExpression> = run.completed.into_iter().next().unwrap().0;
    assert_eq!(results, vec![Number(3), Number(7)]);
}

#[test]
fn run_runs_the_program_of_the_component() {
    let component = Component {
        prelude: s(PRELUDE),
        program: s("Func double [n] multiply(n 2)\ndouble(21)"),
        budget: BUDGET,
    };
    assert_eq!(component.run(), Ok(()));
    let broken = Component {
        prelude: s(PRELUDE),
        program: s("Nothing 1"),
        budget: BUDGET,
    };
    assert_eq!(broken.run(), Err(()));
    let endless = Component {
        prelude: s(PRELUDE),
        program: s("Def loop Fn [] loop()\nloop()"),
        budget: BUDGET,
    };
    assert_eq!(endless.run(), Err(()));
}

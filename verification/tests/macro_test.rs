use nana::environment::{Environment, Store};
use nana::expressions::LexicalExpression;
use nana::expressions::RuntimeExpression::{self, MacroCall};
use nana::parsers::macros::{build_macros, build_many_macros, expand_at, ExpansionError};
use nana::parsers::nana::program;

fn s(text: &str) -> String {
    text.to_string()
}

fn a_macro(parameters: &[&str]) -> RuntimeExpression {
    RuntimeExpression::Macro(
        parameters.iter().map(|name| name.to_string()).collect(),
        Environment::new(),
        vec![],
    )
}

fn create_env_with_macros(store: &mut Store) -> Environment {
    Environment::from(
        &vec![
            (s("Package"), a_macro(&["name"])),
            (s("World"), a_macro(&["name", "body"])),
            (s("Import"), a_macro(&["name"])),
            (s("Export"), a_macro(&["name", "args", "return_type"])),
            (s("Func"), a_macro(&["name", "args", "return_type", "body"])),
            (s("Match"), a_macro(&["condition", "branches"])),
            (s("Let"), a_macro(&["bindings", "body"])),
            (s("For"), a_macro(&["binding", "body"])),
            (s("number"), RuntimeExpression::Number(1)),
        ],
        store,
    )
}

fn forms(source: &str) -> Vec<LexicalExpression> {
    let (rest, forms) = program(source);
    assert_eq!(rest, "");
    forms
}

#[test]
fn parses_basic_macro() {
    let mut store = Store::new();
    let env = create_env_with_macros(&mut store);
    let result = build_macros(&forms("Package \"foo\""), &env, &store);
    assert_eq!(
        Ok((
            Some(MacroCall(
                "Package".to_string(),
                vec![RuntimeExpression::String("foo".to_string())],
            )),
            vec![],
        )),
        result
    );
}

#[test]
fn parses_nested_macros() {
    let mut store = Store::new();
    let env = create_env_with_macros(&mut store);
    let result = build_macros(&forms("Package Package \"foo\""), &env, &store);
    assert_eq!(
        Ok((
            Some(MacroCall(
                "Package".to_string(),
                vec![MacroCall(
                    "Package".to_string(),
                    vec![RuntimeExpression::String("foo".to_string())],
                )],
            )),
            vec![],
        )),
        result
    );
}

#[test]
fn parses_macros_in_lists() {
    let mut store = Store::new();
    let env = create_env_with_macros(&mut store);
    assert_eq!(
        Ok((
            Some(RuntimeExpression::List(vec![
                RuntimeExpression::Number(1),
                MacroCall(
                    "Package".to_string(),
                    vec![MacroCall(
                        "Package".to_string(),
                        vec![RuntimeExpression::String("two".to_string())],
                    )],
                ),
                RuntimeExpression::Number(3)
            ])),
            vec![],
        )),
        build_macros(&forms("[1 Package Package \"two\" 3]"), &env, &store)
    )
}

#[test]
fn parses_macros_in_args_to_functions() {
    let mut store = Store::new();
    let env = create_env_with_macros(&mut store);
    assert_eq!(
        Ok((
            Some(RuntimeExpression::TaggedTuple(
                Box::new(RuntimeExpression::Symbol("println".to_string())),
                vec![
                    RuntimeExpression::Number(1),
                    MacroCall(
                        "Package".to_string(),
                        vec![MacroCall(
                            "Package".to_string(),
                            vec![RuntimeExpression::String("two".to_string())],
                        )],
                    ),
                    RuntimeExpression::Number(3)
                ]
            )),
            vec![],
        )),
        build_macros(&forms("println(1 Package Package \"two\" 3)"), &env, &store)
    )
}

#[test]
fn a_macro_takes_as_many_forms_as_it_has_parameters() {
    let mut store = Store::new();
    let env = create_env_with_macros(&mut store);
    let result = build_macros(&forms("World a Package b c d"), &env, &store);
    assert_eq!(
        result,
        Ok((
            Some(MacroCall(
                s("World"),
                vec![
                    RuntimeExpression::Symbol(s("a")),
                    MacroCall(s("Package"), vec![RuntimeExpression::Symbol(s("b"))]),
                ]
            )),
            vec![
                LexicalExpression::Symbol(s("c")),
                LexicalExpression::Symbol(s("d"))
            ]
        ))
    );
}

#[test]
fn a_comment_expands_to_nothing() {
    let mut store = Store::new();
    let env = create_env_with_macros(&mut store);
    assert_eq!(
        build_macros(&forms("# note\nx"), &env, &store),
        Ok((None, vec![LexicalExpression::Symbol(s("x"))]))
    );
    assert_eq!(
        build_many_macros(&forms("[1 # one\n 2]\n# done\n"), &env, &store),
        Ok(vec![RuntimeExpression::List(vec![
            RuntimeExpression::Number(1),
            RuntimeExpression::Number(2)
        ])])
    );
    assert_eq!(
        build_macros(&forms("World # note\n a b"), &env, &store),
        Ok((
            Some(MacroCall(s("World"), vec![RuntimeExpression::Symbol(s("a"))])),
            vec![LexicalExpression::Symbol(s("b"))]
        ))
    );
}

#[test]
fn all_other_forms_keep_their_shape() {
    let mut store = Store::new();
    let env = create_env_with_macros(&mut store);
    assert_eq!(
        build_many_macros(&forms(":k sym 12 \"s\" _ [] :tag(1)"), &env, &store),
        Ok(vec![
            RuntimeExpression::Keyword(s("k")),
            RuntimeExpression::Symbol(s("sym")),
            RuntimeExpression::Number(12),
            RuntimeExpression::String(s("s")),
            RuntimeExpression::Hole,
            RuntimeExpression::List(vec![]),
            RuntimeExpression::TaggedTuple(
                Box::new(RuntimeExpression::Keyword(s("tag"))),
                vec![RuntimeExpression::Number(1)]
            ),
        ])
    );
}

#[test]
fn expand_at_returns_the_position_behind_the_arguments() {
    let mut store = Store::new();
    let env = create_env_with_macros(&mut store);
    let forms = forms("a Package b c");
    assert_eq!(
        expand_at(&forms, 0, &env, &store),
        Ok((Some(RuntimeExpression::Symbol(s("a"))), 1))
    );
    assert_eq!(
        expand_at(&forms, 1, &env, &store),
        Ok((
            Some(MacroCall(s("Package"), vec![RuntimeExpression::Symbol(s("b"))])),
            3
        ))
    );
}

#[test]
fn a_name_without_a_macro_cannot_be_expanded() {
    let mut store = Store::new();
    let env = create_env_with_macros(&mut store)
        .add(s("Number"), RuntimeExpression::Number(1), &mut store)
        .prepare(s("Later"), &mut store);
    assert_eq!(
        build_macros(&forms("Unknown 1"), &env, &store),
        Err(ExpansionError::UndefinedMacro(s("Unknown")))
    );
    assert_eq!(
        build_macros(&forms("Later 1"), &env, &store),
        Err(ExpansionError::UndefinedMacro(s("Later")))
    );
    assert_eq!(
        build_macros(&forms("Number 1"), &env, &store),
        Err(ExpansionError::NotAMacro(s("Number")))
    );
    assert_eq!(
        build_many_macros(&forms("1 [2 Unknown]"), &env, &store),
        Err(ExpansionError::UndefinedMacro(s("Unknown")))
    );
}

#[test]
fn a_macro_without_all_its_arguments_cannot_be_expanded() {
    let mut store = Store::new();
    let env = create_env_with_macros(&mut store);
    assert_eq!(
        build_macros(&forms("World a"), &env, &store),
        Err(ExpansionError::MissingArgument(s("World")))
    );
    assert_eq!(
        build_macros(&forms("[Package]"), &env, &store),
        Err(ExpansionError::MissingArgument(s("Package")))
    );
}

#[test]
fn a_macro_name_cannot_stand_as_a_tag() {
    let mut store = Store::new();
    let env = create_env_with_macros(&mut store);
    assert_eq!(
        build_macros(&forms("Package(1)"), &env, &store),
        Err(ExpansionError::MisplacedMacroName(s("Package")))
    );
    assert_eq!(
        build_macros(
            &vec![LexicalExpression::TaggedTuple(
                Box::new(LexicalExpression::Comment),
                vec![]
            )],
            &env,
            &store
        ),
        Err(ExpansionError::MisplacedComment)
    );
}

#[test]
fn the_body_of_a_countdown_expands_to_a_call_of_match() {
    let mut store = Store::new();
    let natives = nana::standard_library::builtins(&mut store);
    let result = build_macros(
        &forms("Match n [0 \"base\" _ countdown(decrement(n))]"),
        &natives,
        &store,
    );
    let symbol = |name: &str| RuntimeExpression::Symbol(s(name));
    let less = RuntimeExpression::TaggedTuple(Box::new(symbol("decrement")), vec![symbol("n")]);
    let call = RuntimeExpression::TaggedTuple(Box::new(symbol("countdown")), vec![less]);
    let cases = RuntimeExpression::List(vec![
        RuntimeExpression::Number(0),
        RuntimeExpression::String(s("base")),
        RuntimeExpression::Hole,
        call,
    ]);
    assert_eq!(
        result,
        Ok((Some(MacroCall(s("Match"), vec![symbol("n"), cases])), vec![]))
    );
}

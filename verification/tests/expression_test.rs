use nana::environment::Environment;
use nana::expressions::RuntimeExpression::{
    BuiltinFunction, BuiltinMacro, Definition, Function, Hole, Keyword, List, Macro, MacroCall,
    Number, String as NString, Symbol, TaggedTuple,
};
use nana::expressions::{
    is_comment, print, print_many, Builtin, LexicalExpression, NativeMacro, RuntimeExpression,
};

#[test]
fn test_print_builtin_function() {
    let expr = BuiltinFunction(Builtin::Add);
    assert_eq!(print(expr), "BuiltinFunction(..)");
}

#[test]
fn test_print_function() {
    let expr = Function(
        vec!["x".to_string(), "y".to_string()],
        Environment::new(),
        vec![],
    );
    assert_eq!(print(expr), "Function([x y] _)");
}

#[test]
fn test_print_builtin_macro() {
    let expr = BuiltinMacro(vec!["x".to_string(), "y".to_string()], NativeMacro::Def);
    assert_eq!(print(expr), "BuiltinMacro([x y] _)");
}

#[test]
fn test_print_definition() {
    let expr = Definition("foo".to_string(), Box::new(Number(1)));
    assert_eq!(print(expr), "Definition(foo 1)");
}

#[test]
fn test_print_hole() {
    let expr = Hole;
    assert_eq!(print(expr), "_");
}

#[test]
fn test_print_keyword() {
    let expr = Keyword("foo".to_string());
    assert_eq!(print(expr), ":foo");
}

#[test]
fn test_print_list() {
    let expr = List(vec![Number(1), Number(2)]);
    assert_eq!(print(expr), "[1 2]");
}

#[test]
fn test_print_macro() {
    let expr = Macro(
        vec!["a".to_string(), "b".to_string()],
        Environment::new(),
        vec![],
    );
    assert_eq!(print(expr), "Macro([a b] _)");
}

#[test]
fn test_print_macro_call() {
    let expr = MacroCall("foo".to_string(), vec![Number(1), Number(2)]);
    assert_eq!(print(expr), "foo(1 2)");
}

#[test]
fn test_print_number() {
    let expr = Number(42);
    assert_eq!(print(expr), "42");
}

#[test]
fn test_print_nstring() {
    let expr = NString("bar".to_string());
    assert_eq!(print(expr), "\"bar\"");
}

#[test]
fn test_print_symbol() {
    let expr = Symbol("baz".to_string());
    assert_eq!(print(expr), "baz");
}

#[test]
fn test_print_tagged_tuple() {
    let tag = Box::new(Symbol("tag".to_string()));
    let expr = TaggedTuple(tag, vec![Number(1), Number(2)]);
    assert_eq!(print(expr), "tag(1 2)");
}

#[test]
fn print_numbers_in_decimal() {
    assert_eq!(print(Number(0)), "0");
    assert_eq!(print(Number(9)), "9");
    assert_eq!(print(Number(10)), "10");
    assert_eq!(print(Number(1234567890)), "1234567890");
    assert_eq!(
        print(Number(u128::MAX)),
        "340282366920938463463374607431768211455"
    );
}

#[test]
fn print_nested_values() {
    let expr = List(vec![
        List(vec![]),
        TaggedTuple(
            Box::new(Keyword("error".to_string())),
            vec![Keyword("argument".to_string()), NString("no".to_string())],
        ),
        Hole,
    ]);
    assert_eq!(print(expr), "[[] :error(:argument \"no\") _]");
}

#[test]
fn print_many_joins_with_the_separator() {
    assert_eq!(print_many(vec![], ", "), "");
    assert_eq!(print_many(vec![Number(1)], ", "), "1");
    assert_eq!(
        print_many(vec![Number(1), Symbol("x".to_string()), Hole], ", "),
        "1, x, _"
    );
}

#[test]
fn is_comment_tells_comments_from_other_forms() {
    assert!(is_comment(&LexicalExpression::Comment));
    assert!(!is_comment(&LexicalExpression::Hole));
    assert!(!is_comment(&LexicalExpression::List(vec![
        LexicalExpression::Comment
    ])));
}

#[test]
fn clone_and_same_agree_with_equality() {
    let value = TaggedTuple(
        Box::new(Symbol("f".to_string())),
        vec![
            Function(vec!["x".to_string()], Environment::new(), vec![Symbol("x".to_string())]),
            Definition("d".to_string(), Box::new(List(vec![Number(1), Hole]))),
            MacroCall("M".to_string(), vec![Keyword("k".to_string())]),
        ],
    );
    let copy: RuntimeExpression = value.clone();
    assert_eq!(copy, value);
    assert!(copy.same(&value));
    assert!(!copy.same(&Number(1)));
    assert!(!List(vec![Number(1)]).same(&List(vec![Number(2)])));
    assert!(!List(vec![Number(1)]).same(&List(vec![Number(1), Number(1)])));
    assert!(!NString("a".to_string()).same(&Symbol("a".to_string())));
}

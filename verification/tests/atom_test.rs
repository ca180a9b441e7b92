use nana::environment::{Environment, Store};
use nana::execution::execute_once;
use nana::expressions::print;
use nana::expressions::RuntimeExpression::{
    self, Atom as AtomHandle, Keyword, List, Number, String as NString, TaggedTuple,
};
use nana::standard_library::atom::{atom_builtins, Atom};
use nana::standard_library::builtins;

const BUDGET: usize = 10_000;

fn s(text: &str) -> String {
    text.to_string()
}

fn failure(message: &str) -> RuntimeExpression {
    TaggedTuple(
        Box::new(Keyword(s("error"))),
        vec![Keyword(s("argument")), NString(s(message))],
    )
}

fn environment(store: &mut Store) -> Environment {
    let atoms = atom_builtins(store);
    builtins(store).union(atoms)
}

fn run(program: &str, environment: Environment, store: &mut Store) -> Vec<RuntimeExpression> {
    execute_once(s(program), environment, store, BUDGET)
        .expect("the program expands")
        .expect("the program runs to its end")
}

#[test]
fn an_atom_holds_a_value() {
    let mut store = Store::new();
    let environment = environment(&mut store);
    assert_eq!(
        run(
            "Def counter atom([1 2] [])\nget(counter)",
            environment,
            &mut store
        ),
        vec![AtomHandle(0), List(vec![Number(1), Number(2)])]
    );
}

#[test]
fn atoms_are_the_same_where_they_are_the_same_cell() {
    let mut store = Store::new();
    let environment = environment(&mut store);
    assert_eq!(
        run(
            "Def a atom(1 [])\nDef b atom(1 [])\n\
             Match [a a] [[x x] :same _ :different]\n\
             Match [a b] [[x x] :same _ :different]",
            environment,
            &mut store
        ),
        vec![
            AtomHandle(0),
            AtomHandle(1),
            Keyword(s("same")),
            Keyword(s("different"))
        ]
    );
    assert!(AtomHandle(0).same(&AtomHandle(0)));
    assert!(!AtomHandle(0).same(&AtomHandle(1)));
}

#[test]
fn the_functions_on_atoms_check_their_arguments() {
    let mut store = Store::new();
    let environment = environment(&mut store);
    assert_eq!(
        run(
            "atom(1) atom(1 2) get() get(1) get(atom(1 []) 2)",
            environment,
            &mut store
        ),
        vec![
            failure("atom takes exactly 2 arguments"),
            failure("atom's second argument must be a list of watcher functions"),
            failure("get takes exactly one atom as an argument"),
            failure("get takes exactly one atom as an argument"),
            failure("get takes exactly one atom as an argument"),
        ]
    );
}

#[test]
fn an_atom_of_another_store_is_none_of_this_one() {
    let mut store = Store::new();
    let environment = environment(&mut store)
        .add(s("stray"), AtomHandle(7), &mut store);
    assert_eq!(
        run("get(stray)", environment, &mut store),
        vec![failure("get takes exactly one atom as an argument")]
    );
}

#[test]
fn the_store_keeps_atoms_with_their_watchers() {
    let mut store = Store::new();
    let cell = store.new_atom(Atom::new(Number(1), vec![Keyword(s("watcher"))]));
    assert_eq!(cell, 0);
    let atom = store.atom(cell).expect("the atom was added");
    assert_eq!(atom.clone().get(), Number(1));
    assert_eq!(atom.watchers(), vec![Keyword(s("watcher"))]);
    assert_eq!(store.atom(1), None);
}

#[test]
fn an_atom_prints_without_its_content() {
    assert_eq!(print(AtomHandle(3)), "Atom(..)");
}

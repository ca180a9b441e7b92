use nana::environment::{Environment, Store};
use nana::expressions::RuntimeExpression::{Number, String as NString};

#[test]
fn test_environment() {
    let mut store = Store::new();
    let env = Environment::new();

    assert_eq!(env.provide("one", Number(1), &mut store), None);

    let env_one = env.prepare("one".to_string(), &mut store);
    env_one
        .provide("one", Number(1), &mut store)
        .expect("Value was not prepared");

    let env_two = env_one.add("two".to_string(), Number(2), &mut store);

    assert_eq!(env_two.get("one", &store), Some(Number(1)));
    assert_eq!(env_two.get("two", &store), Some(Number(2)));
    assert_eq!(env_two.get("three", &store), None);
}

#[test]
fn provide_fills_a_prepared_cell_once() {
    let mut store = Store::new();
    let env = Environment::new().prepare("name".to_string(), &mut store);
    assert_eq!(env.get("name", &store), None);
    assert!(env.binds("name"));

    assert_eq!(env.provide("name", Number(1), &mut store), Some(()));
    assert_eq!(env.provide("name", Number(2), &mut store), None);
    assert_eq!(env.get("name", &store), Some(Number(1)));
}

#[test]
fn provide_on_an_added_name_fails() {
    let mut store = Store::new();
    let env = Environment::new().add("name".to_string(), Number(1), &mut store);
    assert_eq!(env.provide("name", Number(2), &mut store), None);
    assert_eq!(env.get("name", &store), Some(Number(1)));
}

#[test]
fn a_copy_sees_what_is_provided_later() {
    let mut store = Store::new();
    let env = Environment::new().prepare("later".to_string(), &mut store);
    let captured = env.clone();
    assert_eq!(captured.get("later", &store), None);
    env.provide("later", NString("now".to_string()), &mut store)
        .expect("the cell was prepared");
    assert_eq!(captured.get("later", &store), Some(NString("now".to_string())));
}

#[test]
fn operations_leave_the_old_environment_as_it_was() {
    let mut store = Store::new();
    let old = Environment::new().add("a".to_string(), Number(1), &mut store);
    let new = old.clone().add("a".to_string(), Number(2), &mut store);
    let newer = new.clone().add("b".to_string(), Number(3), &mut store);
    assert_eq!(old.get("a", &store), Some(Number(1)));
    assert_eq!(old.get("b", &store), None);
    assert_eq!(new.get("a", &store), Some(Number(2)));
    assert_eq!(newer.get("b", &store), Some(Number(3)));
}

#[test]
fn union_prefers_the_other_environment() {
    let mut store = Store::new();
    let left = Environment::new()
        .add("a".to_string(), Number(1), &mut store)
        .add("b".to_string(), Number(2), &mut store)
        .add("c".to_string(), Number(3), &mut store);
    let right = Environment::new()
        .add("b".to_string(), Number(20), &mut store)
        .add("d".to_string(), Number(40), &mut store);

    let merged = left.clone().union(right.clone());
    assert_eq!(merged.get("a", &store), Some(Number(1)));
    assert_eq!(merged.get("b", &store), Some(Number(20)));
    assert_eq!(merged.get("c", &store), Some(Number(3)));
    assert_eq!(merged.get("d", &store), Some(Number(40)));

    let other_way = right.union(left);
    assert_eq!(other_way.get("b", &store), Some(Number(2)));
    assert_eq!(other_way.get("d", &store), Some(Number(40)));
}

#[test]
fn from_binds_each_pair_and_the_later_wins() {
    let mut store = Store::new();
    let env = Environment::from(
        &vec![
            ("x".to_string(), Number(1)),
            ("y".to_string(), Number(2)),
            ("x".to_string(), Number(3)),
        ],
        &mut store,
    );
    assert_eq!(env.get("x", &store), Some(Number(3)));
    assert_eq!(env.get("y", &store), Some(Number(2)));
    assert_eq!(store.size(), 3);
}

#[test]
fn iter_lists_the_filled_bindings() {
    let mut store = Store::new();
    let env = Environment::new()
        .add("a".to_string(), Number(1), &mut store)
        .prepare("empty".to_string(), &mut store)
        .add("b".to_string(), Number(2), &mut store);
    let mut listed = env.iter(&store);
    listed.sort_by(|left, right| left.0.cmp(&right.0));
    assert_eq!(
        listed,
        vec![("a".to_string(), Number(1)), ("b".to_string(), Number(2))]
    );
}

#[test]
fn equal_environments_bind_the_same_cells() {
    let mut store = Store::new();
    let env = Environment::new().add("a".to_string(), Number(1), &mut store);
    let same = env.clone();
    let other = Environment::new().add("a".to_string(), Number(1), &mut store);
    assert!(env.same(&same));
    assert!(!env.same(&other));
}

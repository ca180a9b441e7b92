use nana::environment::Store;
use nana::expressions::RuntimeExpression::{self, Definition, Keyword, List, Number};
use nana::process::Process::{Complete, Running, Spawn};
use nana::process::{Continuation, Process, Stepable};

const BUDGET: usize = 1000;

fn numbers(a: u128, b: u128, c: u128) -> RuntimeExpression {
    List(vec![Number(a), Number(b), Number(c)])
}

fn defer(process: Process) -> Process {
    Running(Stepable::Deferred(Box::new(process)))
}

fn make_process(a: u128, b: u128, c: u128) -> Process {
    defer(defer(defer(Complete(numbers(a, b, c)))))
}

fn step_process(process: Process, store: &mut Store) -> Process {
    match process {
        Running(stepable) => stepable.step(store),
        Complete(_) => panic!("Tried to step a complete process"),
        Spawn(..) => panic!("Tried to step a spawn process"),
    }
}

#[test]
fn test_process_by_steps() {
    let mut store = Store::new();
    let first = step_process(make_process(1, 2, 3), &mut store);
    let second = step_process(first, &mut store);
    let actual = step_process(second, &mut store);

    let expected = numbers(1, 2, 3);
    match actual {
        Complete(result) => assert_eq!(expected, result),
        Running(_) => assert!(false),
        Spawn(..) => assert!(false),
    }
}

#[test]
fn test_process_to_completion() {
    let mut store = Store::new();
    let actual = make_process(1, 2, 3).run_once_until_complete(&mut store, BUDGET);

    let expected = numbers(1, 2, 3);
    assert_eq!(Some(expected), actual);
}

#[test]
fn test_round_robin_processes_to_completion() {
    let mut store = Store::new();
    let actual = Process::round_robin(
        vec![
            make_process(1, 2, 3),
            make_process(4, 5, 6),
            make_process(7, 8, 9),
        ],
        &mut store,
        BUDGET,
    );

    let expected = vec![numbers(1, 2, 3), numbers(4, 5, 6), numbers(7, 8, 9)];

    assert!(actual.is_done());
    assert_eq!(expected, actual.completed);
}

#[test]
fn test_round_robin_processes_with_complete() {
    let mut store = Store::new();
    let actual = Process::round_robin(
        vec![
            make_process(1, 2, 3),
            Complete(numbers(4, 5, 6)),
            make_process(7, 8, 9),
        ],
        &mut store,
        BUDGET,
    );

    let expected = vec![numbers(4, 5, 6), numbers(1, 2, 3), numbers(7, 8, 9)];

    assert!(actual.is_done());
    assert_eq!(expected, actual.completed);
}

#[test]
fn test_complete_sequence() {
    let mut store = Store::new();
    let input = vec![Complete(Number(1)), Complete(Number(2)), Complete(Number(3))];

    let process = Process::run_in_sequence(input, &mut store);

    let actual = process.run_once_until_complete(&mut store, BUDGET);

    let expected = List(vec![Number(1), Number(2), Number(3)]);

    assert_eq!(Some(expected), actual);
}

#[test]
fn test_running_sequence() {
    let mut store = Store::new();
    let input = vec![
        make_process(1, 2, 3),
        make_process(4, 5, 6),
        make_process(7, 8, 9),
    ];

    let process = Process::run_in_sequence(input, &mut store);

    let actual = process.run_once_until_complete(&mut store, BUDGET);

    let expected = List(vec![numbers(1, 2, 3), numbers(4, 5, 6), numbers(7, 8, 9)]);

    assert_eq!(Some(expected), actual);
}

#[test]
fn test_and_then() {
    let mut store = Store::new();
    let process = defer(Complete(Number(1))).and_then(Continuation::Definition("two".to_string()));
    assert_eq!(
        Some(Definition("two".to_string(), Box::new(Number(1)))),
        process.run_once_until_complete(&mut store, BUDGET)
    );
}

#[test]
fn and_then_hands_a_complete_result_over_in_one_step() {
    let mut store = Store::new();
    let process = Complete(Number(7)).and_then(Continuation::Definition("seven".to_string()));
    let stepped = step_process(process, &mut store);
    assert_eq!(
        stepped,
        Complete(Definition("seven".to_string(), Box::new(Number(7))))
    );
}

#[test]
fn and_then_hands_over_as_soon_as_the_inner_step_completes() {
    let mut store = Store::new();
    let process = defer(Complete(Number(7))).and_then(Continuation::Definition("seven".to_string()));
    let stepped = step_process(process, &mut store);
    assert_eq!(
        stepped,
        Complete(Definition("seven".to_string(), Box::new(Number(7))))
    );
}

#[test]
fn and_then_wraps_a_process_that_is_still_running() {
    let mut store = Store::new();
    let process =
        defer(defer(Complete(Number(7)))).and_then(Continuation::Definition("seven".to_string()));
    let stepped = step_process(process, &mut store);
    assert_eq!(
        stepped,
        defer(Complete(Number(7))).and_then(Continuation::Definition("seven".to_string()))
    );
}

#[test]
fn and_then_passes_spawned_processes_on() {
    let mut store = Store::new();
    let spawning = Spawn(Box::new(Complete(Number(1))), vec![make_process(1, 2, 3)]);
    let process = defer(spawning).and_then(Continuation::Definition("one".to_string()));
    let stepped = step_process(process, &mut store);
    assert_eq!(
        stepped,
        Spawn(
            Box::new(Complete(Number(1)).and_then(Continuation::Definition("one".to_string()))),
            vec![make_process(1, 2, 3)]
        )
    );
}

#[test]
fn chained_continuations_run_in_order() {
    let mut store = Store::new();
    let process = Process::run_in_sequence(
        vec![defer(Complete(Number(1))), Complete(Number(2))],
        &mut store,
    )
        .and_then(Continuation::Tag(Keyword("pair".to_string())))
        .and_then(Continuation::Definition("name".to_string()));
    assert_eq!(
        process.run_once_until_complete(&mut store, BUDGET),
        Some(Definition(
            "name".to_string(),
            Box::new(RuntimeExpression::TaggedTuple(
                Box::new(Keyword("pair".to_string())),
                vec![Number(1), Number(2)]
            ))
        ))
    );
}

#[test]
fn a_list_continuation_rejects_a_result_that_is_no_list() {
    let mut store = Store::new();
    let process = Complete(Number(1)).and_then(Continuation::Tag(Keyword("pair".to_string())));
    assert_eq!(
        process.run_once_until_complete(&mut store, BUDGET),
        Some(RuntimeExpression::TaggedTuple(
            Box::new(Keyword("error".to_string())),
            vec![
                Keyword("argument".to_string()),
                RuntimeExpression::String(
                    "The results of a sequence must come as a list".to_string()
                )
            ]
        ))
    );
}

fn slow(steps: usize, value: u128) -> Process {
    let mut process = Complete(Number(value));
    for _ in 0..steps {
        process = defer(process);
    }
    process
}

#[test]
fn run_in_sequence_keeps_the_order_of_its_input() {
    let mut store = Store::new();
    let process = Process::run_in_sequence(vec![slow(5, 1), slow(1, 2), slow(3, 3)], &mut store);
    assert_eq!(
        process.run_once_until_complete(&mut store, BUDGET),
        Some(List(vec![Number(1), Number(2), Number(3)]))
    );
}

#[test]
fn round_robin_reports_in_the_order_of_completion() {
    let mut store = Store::new();
    let schedule = Process::round_robin(vec![slow(5, 1), slow(1, 2), slow(3, 3)], &mut store, BUDGET);
    assert!(schedule.is_done());
    assert_eq!(schedule.completed, vec![Number(2), Number(3), Number(1)]);
}

#[test]
fn run_in_sequence_of_nothing_is_complete_at_once() {
    let mut store = Store::new();
    assert_eq!(
        Process::run_in_sequence(vec![], &mut store),
        Complete(List(vec![]))
    );
    assert_eq!(Process::in_sequence(vec![]), Complete(List(vec![])));
}

#[test]
fn run_in_sequence_steps_a_running_first_process_in_the_call() {
    let mut store = Store::new();
    let process = Process::run_in_sequence(vec![slow(2, 1), slow(1, 2)], &mut store);
    assert_eq!(
        process,
        Running(Stepable::Sequence(vec![slow(1, 1), slow(1, 2)], vec![]))
    );
    let stepped = step_process(process, &mut store);
    let stepped = step_process(stepped, &mut store);
    assert_eq!(
        stepped,
        Running(Stepable::Sequence(vec![slow(1, 2)], vec![Number(1)]))
    );
}

#[test]
fn run_in_sequence_takes_the_result_of_a_complete_first_process_in_the_call() {
    let mut store = Store::new();
    let process = Process::run_in_sequence(vec![Complete(Number(1)), slow(1, 2)], &mut store);
    assert_eq!(
        process,
        Running(Stepable::Sequence(vec![slow(1, 2)], vec![Number(1)]))
    );
}

#[test]
fn run_in_sequence_passes_spawned_processes_on_in_the_call() {
    let mut store = Store::new();
    let spawning = Spawn(Box::new(Complete(Number(1))), vec![slow(1, 9)]);
    let process = Process::run_in_sequence(vec![spawning, slow(1, 2)], &mut store);
    assert_eq!(
        process,
        Spawn(
            Box::new(Running(Stepable::Sequence(
                vec![Complete(Number(1)), slow(1, 2)],
                vec![]
            ))),
            vec![slow(1, 9)]
        )
    );
}

#[test]
fn in_sequence_leaves_the_step_of_a_running_first_process() {
    assert_eq!(
        Process::in_sequence(vec![slow(2, 1), slow(1, 2)]),
        Running(Stepable::Sequence(vec![slow(2, 1), slow(1, 2)], vec![]))
    );
    assert_eq!(
        Process::in_sequence(vec![Complete(Number(1)), slow(1, 2)]),
        Running(Stepable::Sequence(vec![slow(1, 2)], vec![Number(1)]))
    );
    let spawning = Spawn(Box::new(Complete(Number(1))), vec![slow(1, 9)]);
    assert_eq!(
        Process::in_sequence(vec![spawning, slow(1, 2)]),
        Spawn(
            Box::new(Running(Stepable::Sequence(
                vec![Complete(Number(1)), slow(1, 2)],
                vec![]
            ))),
            vec![slow(1, 9)]
        )
    );
}

#[test]
fn run_in_sequence_tco_returns_a_single_process_as_it_is() {
    let mut store = Store::new();
    assert_eq!(
        Process::run_in_sequence_tco(vec![slow(2, 1)], &mut store),
        slow(2, 1)
    );
    assert_eq!(Process::in_sequence_tco(vec![slow(2, 1)]), slow(2, 1));
}

#[test]
fn run_in_sequence_tco_keeps_the_last_result_only() {
    let mut store = Store::new();
    let process =
        Process::run_in_sequence_tco(vec![slow(2, 1), slow(1, 2), slow(3, 3)], &mut store);
    assert_eq!(
        process.run_once_until_complete(&mut store, BUDGET),
        Some(Number(3))
    );
}

#[test]
fn run_in_sequence_tco_steps_a_running_first_process_once_in_the_call() {
    let mut store = Store::new();
    let process = Process::run_in_sequence_tco(vec![slow(3, 1), slow(2, 2)], &mut store);
    assert_eq!(
        process,
        Running(Stepable::SequenceTco(
            Box::new(slow(2, 1)),
            vec![slow(2, 2)]
        ))
    );
}

#[test]
fn run_in_sequence_tco_drops_a_complete_first_process_in_the_call() {
    let mut store = Store::new();
    let process = Process::run_in_sequence_tco(
        vec![Complete(Number(1)), Complete(Number(2))],
        &mut store,
    );
    assert_eq!(
        process,
        Running(Stepable::SequenceTco(Box::new(Complete(Number(2))), vec![]))
    );
    let stepped = step_process(process, &mut store);
    assert_eq!(stepped, Complete(Number(2)));
}

#[test]
fn run_in_sequence_tco_unwraps_the_last_process() {
    let mut store = Store::new();
    let process = Process::run_in_sequence_tco(vec![Complete(Number(1)), slow(2, 2)], &mut store);
    assert_eq!(
        process,
        Running(Stepable::SequenceTco(Box::new(slow(2, 2)), vec![]))
    );
    let stepped = step_process(process, &mut store);
    assert_eq!(stepped, slow(2, 2));
}

#[test]
fn run_in_sequence_tco_passes_spawned_processes_on_in_the_call() {
    let mut store = Store::new();
    let spawning = Spawn(Box::new(Complete(Number(1))), vec![slow(1, 9)]);
    let process = Process::run_in_sequence_tco(vec![spawning, slow(1, 2)], &mut store);
    assert_eq!(
        process,
        Spawn(
            Box::new(Running(Stepable::SequenceTco(
                Box::new(Complete(Number(1))),
                vec![slow(1, 2)]
            ))),
            vec![slow(1, 9)]
        )
    );
}

#[test]
fn in_sequence_tco_does_no_work() {
    assert_eq!(
        Process::in_sequence_tco(vec![slow(3, 1), slow(2, 2)]),
        Running(Stepable::SequenceTco(
            Box::new(slow(3, 1)),
            vec![slow(2, 2)]
        ))
    );
}

#[test]
fn round_robin_puts_spawned_processes_behind_the_others() {
    let mut store = Store::new();
    let spawning = Spawn(Box::new(Complete(Number(1))), vec![Complete(Number(2))]);
    let schedule = Process::round_robin(vec![spawning, Complete(Number(3))], &mut store, BUDGET);
    assert!(schedule.is_done());
    assert_eq!(schedule.completed, vec![Number(3), Number(2), Number(1)]);
}

#[test]
fn round_robin_stops_when_the_budget_is_spent() {
    let mut store = Store::new();
    let schedule = Process::round_robin(vec![slow(5, 1), Complete(Number(2))], &mut store, 3);
    assert!(!schedule.is_done());
    assert_eq!(schedule.completed, vec![Number(2)]);
    assert_eq!(schedule.active, vec![slow(3, 1)]);

    let resumed = Process::round_robin(schedule.active, &mut store, BUDGET);
    assert!(resumed.is_done());
    assert_eq!(resumed.completed, vec![Number(1)]);
}

#[test]
fn run_once_until_complete_without_budget_has_no_result() {
    let mut store = Store::new();
    assert_eq!(slow(5, 1).run_once_until_complete(&mut store, 2), None);
}

#[test]
fn round_robin_reports_equal_step_counts_in_the_order_of_the_queue() {
    let mut store = Store::new();
    let queue = vec![slow(2, 1), slow(0, 2), slow(2, 3), slow(1, 4), slow(0, 5)];
    let schedule = Process::round_robin(queue, &mut store, BUDGET);
    assert!(schedule.is_done());
    assert_eq!(
        schedule.completed,
        vec![Number(2), Number(5), Number(4), Number(1), Number(3)]
    );
}

#[test]
fn one_pass_of_the_scheduler_serves_every_process_once() {
    let mut store = Store::new();
    let spawning = Spawn(Box::new(slow(1, 4)), vec![slow(0, 5)]);
    let queue = vec![slow(1, 1), slow(0, 2), spawning, slow(2, 3)];
    let schedule = Process::round_robin(queue, &mut store, 4);
    assert_eq!(schedule.completed, vec![Number(2)]);
    assert_eq!(
        schedule.active,
        vec![slow(0, 1), slow(0, 5), slow(1, 4), slow(1, 3)]
    );
}

#[test]
fn rounds_of_the_scheduler_add_up() {
    let mut store = Store::new();
    let queue = || vec![slow(3, 1), slow(1, 2), slow(2, 3)];
    let at_once = Process::round_robin(queue(), &mut store, 7);
    let first = Process::round_robin(queue(), &mut store, 3);
    assert_eq!(first.completed, vec![]);
    let then = Process::round_robin(first.active, &mut store, 4);
    assert_eq!(then.completed, at_once.completed);
    assert_eq!(then.active, at_once.active);
    assert_eq!(at_once.completed, vec![Number(2)]);
}

#[test]
fn run_in_sequence_tco_becomes_its_last_process() {
    let mut store = Store::new();
    let mut process =
        Process::run_in_sequence_tco(vec![slow(2, 1), slow(1, 2), slow(3, 3)], &mut store);
    // Two steps end the first process, of which the call was one, and one
    // drops it; one step ends the second and one drops it; one more leaves
    // the last alone.
    for _ in 0..5 {
        process = step_process(process, &mut store);
    }
    assert_eq!(process, slow(3, 3));
}

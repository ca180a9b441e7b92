//! A function that calls itself as the last thing it does comes to its end
//! whatever the number of calls, and the process that runs it is of the same
//! shape at every call.
//!
//! The function of this module counts down: it matches its argument against
//! zero, gives a fixed value where they match, and calls itself with the
//! argument less one where they do not.

use crate::environment::{extended, lookup, paired, StoreModel};
use crate::eval::{
    applied, chosen, deferred_each, defining, evaluated, lemma_call_replaces_the_caller,
    lemma_defined_function_sees_itself, native_called, resumed, symbol_names,
};
use crate::expressions::{Builtin, NativeMacro, Value};
use crate::persistent::Slots;
use crate::process::{
    chained, lemma_chain_hands_over, lemma_run_alone_in_two, lemma_sequence_keeps_order,
    run_alone, stepped, ContinuationModel, ProcessModel, StepableModel,
};
use vstd::prelude::*;

verus! {

/// A function that counts down, by the names it uses and the environment
/// that it closed over.
pub struct Countdown {
    /// The name under which the function calls itself.
    pub function: Seq<char>,
    /// The name of its parameter.
    pub parameter: Seq<char>,
    /// The name under which it calls `decrement`.
    pub step: Seq<char>,
    /// The name under which it calls `Match`.
    pub matching: Seq<char>,
    /// What it gives at zero: a number, a string or a keyword.
    pub base: Value,
    /// The environment that it closed over.
    pub closed_over: Slots,
}

impl Countdown {
    /// The call of `decrement` with the parameter.
    pub open spec fn less(self) -> Value {
        Value::TaggedTuple(Box::new(Value::Symbol(self.step)), seq![Value::Symbol(self.parameter)])
    }

    /// The call of the function with its parameter less one.
    pub open spec fn call(self) -> Value {
        Value::TaggedTuple(Box::new(Value::Symbol(self.function)), seq![self.less()])
    }

    /// The cases: zero gives the base, anything else the call.
    pub open spec fn cases(self) -> Seq<Value> {
        seq![Value::Number(0), self.base, Value::Hole, self.call()]
    }

    /// The body of the function.
    pub open spec fn body(self) -> Value {
        Value::MacroCall(
            self.matching,
            seq![Value::Symbol(self.parameter), Value::List(self.cases())],
        )
    }

    /// The function.
    pub open spec fn value(self) -> Value {
        Value::Function(seq![self.parameter], self.closed_over, seq![self.body()])
    }

    /// Whether the names mean in the environment of the function what the
    /// function takes them to mean: its own name the function, and the two
    /// others `decrement` and `Match`, none of them hidden by the parameter.
    pub open spec fn ready(self, store: StoreModel) -> bool {
        &&& lookup(self.closed_over, self.function, store) == Some(self.value())
        &&& lookup(self.closed_over, self.step, store) == Some(
            Value::BuiltinFunction(Builtin::Decrement),
        )
        &&& is_native(lookup(self.closed_over, self.matching, store), NativeMacro::Match)
        &&& self.parameter != self.function
        &&& self.parameter != self.step
        &&& self.parameter != self.matching
        &&& (self.base is Number || self.base is String || self.base is Keyword)
    }
}

/// The function comes to its end for every count. Where the names mean what
/// the function takes them to mean, and the store has room for one cell for
/// each call, the process of the call with `count` completes with the base
/// after some steps. Between two calls the process is the evaluation of the
/// body and nothing else, so that it does not grow with the count. The number
/// of steps is returned.
pub proof fn lemma_counting_down_ends(it: Countdown, count: u128, store: StoreModel) -> (taken:
    nat)
    requires
        it.ready(store),
        store.cells.len() + count < usize::MAX,
    ensures
        run_alone(
            applied(it.value(), seq![Value::Number(count)], store).0,
            applied(it.value(), seq![Value::Number(count)], store).1,
            taken,
        ).0 == ProcessModel::Complete(it.base),
    decreases count,
{
    let argument = Value::Number(count);
    let bindings = paired(seq![it.parameter], seq![argument]);
    reveal_with_fuel(extended, 2);
    let (child, cells) = extended(it.closed_over, bindings, 1, store);
    assert(bindings[0] == (it.parameter, argument));
    assert(child == it.closed_over.insert(it.parameter, store.cells.len() as usize));
    assert(cells == store.allocate(Some(argument)));
    assert(lookup(child, it.parameter, cells) == Some(argument));
    assert(lookup(child, it.function, cells) == Some(it.value()));
    assert(lookup(child, it.step, cells) == Some(Value::BuiltinFunction(Builtin::Decrement)));
    assert(lookup(child, it.matching, cells) == lookup(it.closed_over, it.matching, store));
    assert(it.ready(cells));
    let begun = ProcessModel::Running(StepableModel::Evaluate(it.body(), child));
    assert(applied(it.value(), seq![argument], store) == (begun, cells));
    let matching = ContinuationModel::Match(Value::List(it.cases()), child);
    let waiting = chained(ProcessModel::Complete(argument), matching);
    assert(evaluated(Value::Symbol(it.parameter), child, cells) == (
        ProcessModel::Complete(argument),
        cells,
    ));
    assert(evaluated(it.body(), child, cells) == (waiting, cells));
    assert(run_alone(begun, cells, 1) == (waiting, cells)) by {
        reveal_with_fuel(run_alone, 2);
    }
    assert(run_alone(waiting, cells, 1) == resumed(matching, argument, cells)) by {
        reveal_with_fuel(run_alone, 2);
    }
    lemma_run_alone_in_two(begun, cells, 1, 1);
    reveal_with_fuel(chosen, 3);
    if count == 0 {
        assert(resumed(matching, argument, cells) == (ProcessModel::Complete(it.base), cells));
        2
    } else {
        let less = Value::Number((count - 1) as u128);
        let decrement = ContinuationModel::Apply(Value::BuiltinFunction(Builtin::Decrement));
        let empty = Seq::<Value>::empty();
        let inner = ProcessModel::Running(
            StepableModel::Sequence(seq![ProcessModel::Complete(argument)], empty),
        );
        let first = chained(inner, decrement);
        let outer = ProcessModel::Running(StepableModel::Sequence(seq![first], empty));
        let call = chained(outer, ContinuationModel::Apply(it.value()));
        assert(seq![Value::Symbol(it.parameter)].skip(1) =~= empty);
        assert(seq![ProcessModel::Complete(argument)] + deferred_each(empty, child)
            =~= seq![ProcessModel::Complete(argument)]);
        assert(evaluated(it.less(), child, cells) == (first, cells));
        assert(seq![it.less()].skip(1) =~= empty);
        assert(seq![first] + deferred_each(empty, child) =~= seq![first]);
        assert(evaluated(it.call(), child, cells) == (call, cells));
        assert(resumed(matching, argument, cells) == (call, cells));
        assert(run_alone(ProcessModel::Complete(argument), cells, 0) == (
            ProcessModel::Complete(argument),
            cells,
        ));
        let for_inner = lemma_sequence_keeps_order(
            seq![ProcessModel::Complete(argument)],
            empty,
            seq![0nat],
            seq![argument],
            seq![cells, cells],
        );
        assert(empty + seq![argument] =~= seq![argument]);
        let for_first = lemma_chain_hands_over(inner, decrement, cells, for_inner);
        assert(resumed(decrement, Value::List(seq![argument]), cells) == (
            ProcessModel::Complete(less),
            cells,
        ));
        let for_outer = lemma_sequence_keeps_order(
            seq![first],
            empty,
            seq![for_first],
            seq![less],
            seq![cells, cells],
        );
        assert(empty + seq![less] =~= seq![less]);
        let for_call = lemma_call_replaces_the_caller(
            seq![it.parameter],
            it.closed_over,
            it.body(),
            outer,
            seq![less],
            cells,
            for_outer,
        );
        assert(run_alone(call, cells, for_call) == applied(it.value(), seq![less], cells));
        let rest = lemma_counting_down_ends(it, (count - 1) as u128, cells);
        lemma_run_alone_in_two(begun, cells, 2, for_call);
        lemma_run_alone_in_two(begun, cells, 2 + for_call, rest);
        2 + for_call + rest
    }
}

/// What `Def` is given to define the function: its name, and the call of
/// `Fn` with the parameter and the body.
pub open spec fn definition_of(it: Countdown) -> Seq<Value> {
    seq![
        Value::Symbol(it.function),
        Value::MacroCall("Fn"@, seq![Value::List(seq![Value::Symbol(it.parameter)]), it.body()]),
    ]
}

/// Whether the value is the native macro.
pub open spec fn is_native(value: Option<Value>, native: NativeMacro) -> bool {
    match value {
        Some(Value::BuiltinMacro(_, found)) => found == native,
        _ => false,
    }
}

/// The function that `Def` defines is ready to count down. Where
/// `decrement`, `Match` and `Fn` are known in an environment under names that
/// are not the name of the function, `Def` returns the function before the
/// continuation that fills the cell of its name, and after the one step that
/// fills it the names mean in the environment of the function what the
/// function takes them to mean: its own name means the function itself,
/// though the cell was empty when the function was made.
pub proof fn lemma_a_defined_countdown_is_ready(
    it: Countdown,
    environment: Slots,
    store: StoreModel,
)
    requires
        it.closed_over == defining(environment, it.function, store),
        lookup(environment, it.step, store) == Some(Value::BuiltinFunction(Builtin::Decrement)),
        is_native(lookup(environment, it.matching, store), NativeMacro::Match),
        is_native(lookup(environment, "Fn"@, store), NativeMacro::Fn),
        it.function != it.step,
        it.function != it.matching,
        it.function != "Fn"@,
        it.parameter != it.function,
        it.parameter != it.step,
        it.parameter != it.matching,
        it.base is Number || it.base is String || it.base is Keyword,
        store.cells.len() < usize::MAX,
    ensures
        native_called(NativeMacro::Def, definition_of(it), environment, store) == (
            chained(
                ProcessModel::Complete(it.value()),
                ContinuationModel::Provide(it.function, it.closed_over),
            ),
            store.allocate(None),
        ),
        stepped(
            StepableModel::AndThen(
                Box::new(ProcessModel::Complete(it.value())),
                ContinuationModel::Provide(it.function, it.closed_over),
            ),
            store.allocate(None),
        ).0 == ProcessModel::Complete(Value::Definition(it.function, Box::new(it.value()))),
        it.ready(
            stepped(
                StepableModel::AndThen(
                    Box::new(ProcessModel::Complete(it.value())),
                    ContinuationModel::Provide(it.function, it.closed_over),
                ),
                store.allocate(None),
            ).1,
        ),
{
    let parameters = seq![Value::Symbol(it.parameter)];
    assert(symbol_names(parameters) == Some(seq![it.parameter])) by {
        assert(Seq::new(parameters.len(), |i: int| parameters[i]->Symbol_0) =~= seq![
            it.parameter,
        ]);
    }
    let reserved = store.allocate(None);
    assert(lookup(it.closed_over, "Fn"@, reserved) == lookup(environment, "Fn"@, store));
    lemma_defined_function_sees_itself(it.function, parameters, it.body(), environment, store);
    let filled = stepped(
        StepableModel::AndThen(
            Box::new(ProcessModel::Complete(it.value())),
            ContinuationModel::Provide(it.function, it.closed_over),
        ),
        reserved,
    ).1;
    assert(filled == reserved.fill(store.cells.len() as int, it.value()));
    assert(lookup(it.closed_over, it.step, filled) == lookup(environment, it.step, store));
    assert(lookup(it.closed_over, it.matching, filled) == lookup(
        environment,
        it.matching,
        store,
    ));
}

} // verus!

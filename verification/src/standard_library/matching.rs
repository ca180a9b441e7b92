//! Structural pattern matching, as `Match` uses it.
//!
//! A symbol in a pattern matches anything and binds its name; a hole matches
//! anything and binds nothing; a number, string or keyword matches the equal
//! value; a list matches a list of the same length whose items match one by
//! one. A name that occurs twice must meet the same value both times.

use crate::environment::binding_models;
use crate::expressions::{models, RuntimeExpression, Value};
use vstd::prelude::*;

verus! {

/// Names with the values bound to them, in the order in which matching met
/// the names.
pub type Bindings = Seq<(Seq<char>, Value)>;

/// The position of the binding of `name`, or the length of `bindings` where
/// there is none.
pub open spec fn position(bindings: Bindings, name: Seq<char>) -> int
    decreases bindings.len(),
{
    if bindings.len() == 0 {
        0
    } else if bindings[0].0 == name {
        0
    } else {
        1 + position(bindings.drop_first(), name)
    }
}

/// The bindings after `pattern` has been matched against `value`, starting
/// from `bindings`; `None` where they do not match.
pub open spec fn matched_with(pattern: Value, value: Value, bindings: Bindings) -> Option<Bindings>
    decreases pattern, 0nat,
{
    match pattern {
        Value::Symbol(name) => {
            let found = position(bindings, name);
            if found < bindings.len() {
                if bindings[found].1 == value {
                    Some(bindings)
                } else {
                    None
                }
            } else {
                Some(bindings.push((name, value)))
            }
        },
        Value::Hole => Some(bindings),
        Value::List(patterns) => match value {
            Value::List(values) => if values.len() == patterns.len() {
                matched_from(patterns, values, 0, bindings)
            } else {
                None
            },
            _ => None,
        },
        Value::String(_) | Value::Number(_) | Value::Keyword(_) => if pattern == value {
            Some(bindings)
        } else {
            None
        },
        _ => None,
    }
}

/// The bindings after the patterns from `start` on have been matched, each
/// against the value at its own position.
pub open spec fn matched_from(
    patterns: Seq<Value>,
    values: Seq<Value>,
    start: int,
    bindings: Bindings,
) -> Option<Bindings>
    decreases patterns, patterns.len() - start,
{
    if 0 <= start < patterns.len() {
        match matched_with(patterns[start], values[start], bindings) {
            Some(next) => matched_from(patterns, values, start + 1, next),
            None => None,
        }
    } else {
        Some(bindings)
    }
}

/// What matching `pattern` against `value` binds; `None` where they do not
/// match.
pub open spec fn matched(pattern: Value, value: Value) -> Option<Bindings> {
    matched_with(pattern, value, Seq::empty())
}

/// The model of an optional list of bindings.
pub open spec fn optional_bindings(bindings: Option<Vec<(String, RuntimeExpression)>>) -> Option<
    Bindings,
> {
    match bindings {
        Some(bindings) => Some(binding_models(bindings@)),
        None => None,
    }
}

fn find(bindings: &Vec<(String, RuntimeExpression)>, name: &String) -> (found: usize)
    ensures
        found == position(binding_models(bindings@), name@),
        found <= bindings.len(),
{
    let ghost all = binding_models(bindings@);
    proof {
        assert(all.subrange(0, all.len() as int) =~= all);
    }
    let mut k: usize = 0;
    while k < bindings.len()
        invariant
            k <= bindings.len(),
            all == binding_models(bindings@),
            position(all, name@) == k + position(all.subrange(k as int, all.len() as int), name@),
        decreases bindings.len() - k,
    {
        proof {
            let tail = all.subrange(k as int, all.len() as int);
            assert(tail.drop_first() =~= all.subrange(k as int + 1, all.len() as int));
            assert(tail[0] == all[k as int]);
        }
        if bindings[k].0 == *name {
            return k;
        }
        k += 1;
    }
    proof {
        assert(all.subrange(k as int, all.len() as int).len() == 0);
    }
    k
}

fn match_with(
    pattern: &RuntimeExpression,
    value: &RuntimeExpression,
    bindings: Vec<(String, RuntimeExpression)>,
) -> (extended: Option<Vec<(String, RuntimeExpression)>>)
    ensures
        optional_bindings(extended) == matched_with(pattern@, value@, binding_models(bindings@)),
    decreases pattern, 0nat,
{
    match pattern {
        RuntimeExpression::Symbol(name) => {
            let found = find(&bindings, name);
            if found < bindings.len() {
                if bindings[found].1.same(value) {
                    Some(bindings)
                } else {
                    None
                }
            } else {
                let mut bindings = bindings;
                let ghost before = binding_models(bindings@);
                bindings.push((name.clone(), value.clone()));
                proof {
                    assert(binding_models(bindings@) =~= before.push((name@, value@)));
                }
                Some(bindings)
            }
        },
        RuntimeExpression::Hole => Some(bindings),
        RuntimeExpression::List(patterns) => match value {
            RuntimeExpression::List(values) => {
                if values.len() == patterns.len() {
                    match_from(patterns, values, 0, bindings)
                } else {
                    None
                }
            },
            _ => None,
        },
        RuntimeExpression::String(_) | RuntimeExpression::Number(_) | RuntimeExpression::Keyword(
            _,
        ) => {
            if pattern.same(value) {
                Some(bindings)
            } else {
                None
            }
        },
        _ => None,
    }
}

fn match_from(
    patterns: &Vec<RuntimeExpression>,
    values: &Vec<RuntimeExpression>,
    start: usize,
    bindings: Vec<(String, RuntimeExpression)>,
) -> (extended: Option<Vec<(String, RuntimeExpression)>>)
    requires
        patterns.len() == values.len(),
    ensures
        optional_bindings(extended) == matched_from(
            models(patterns@),
            models(values@),
            start as int,
            binding_models(bindings@),
        ),
    decreases patterns, patterns.len() - start,
{
    if start < patterns.len() {
        match match_with(&patterns[start], &values[start], bindings) {
            Some(next) => match_from(patterns, values, start + 1, next),
            None => None,
        }
    } else {
        Some(bindings)
    }
}

/// Matches `pattern` against `value` and returns what the match binds, or
/// `None` where they do not match.
pub fn does_match(pattern: RuntimeExpression, value: RuntimeExpression) -> (bindings: Option<
    Vec<(String, RuntimeExpression)>,
>)
    ensures
        optional_bindings(bindings) == matched(pattern@, value@),
{
    let empty: Vec<(String, RuntimeExpression)> = Vec::new();
    proof {
        assert(binding_models(empty@) =~= Seq::empty());
    }
    match_with(&pattern, &value, empty)
}

/// The bindings as a map from names to values. Where a name is bound more
/// than once, its first binding counts.
pub open spec fn as_map(bindings: Bindings) -> Map<Seq<char>, Value> {
    Map::new(
        |name: Seq<char>| position(bindings, name) < bindings.len(),
        |name: Seq<char>| bindings[position(bindings, name)].1,
    )
}

/// Whether `pattern` fits `value` when each name stands for the value that
/// `named` gives it: a symbol fits the value of its name, a hole fits
/// anything, a number, string or keyword fits itself, and a list fits a list
/// of the same length item by item. Since `named` gives a name one value, a
/// name that occurs twice must meet the same value twice.
pub open spec fn fits(pattern: Value, value: Value, named: Map<Seq<char>, Value>) -> bool
    decreases pattern,
{
    match pattern {
        Value::Symbol(name) => named.contains_key(name) && named[name] == value,
        Value::Hole => true,
        Value::List(patterns) => match value {
            Value::List(values) => values.len() == patterns.len() && forall|i: int|
                0 <= i < patterns.len() ==> fits(#[trigger] patterns[i], values[i], named),
            _ => false,
        },
        Value::String(_) | Value::Number(_) | Value::Keyword(_) => pattern == value,
        _ => false,
    }
}

/// Whether `more` gives every name of `fewer` the value that `fewer` gives
/// it.
pub open spec fn within(fewer: Map<Seq<char>, Value>, more: Map<Seq<char>, Value>) -> bool {
    forall|name: Seq<char>| #[trigger]
        fewer.contains_key(name) ==> more.contains_key(name) && more[name] == fewer[name]
}

/// Whether `longer` starts with `shorter`.
pub open spec fn starts_with(longer: Bindings, shorter: Bindings) -> bool {
    shorter.len() <= longer.len() && forall|i: int|
        0 <= i < shorter.len() ==> #[trigger] longer[i] == shorter[i]
}

proof fn lemma_position(bindings: Bindings, name: Seq<char>)
    ensures
        0 <= position(bindings, name) <= bindings.len(),
        position(bindings, name) < bindings.len() ==> bindings[position(bindings, name)].0 == name,
        forall|i: int| 0 <= i < position(bindings, name) ==> (#[trigger] bindings[i]).0 != name,
    decreases bindings.len(),
{
    if bindings.len() > 0 && bindings[0].0 != name {
        let rest = bindings.drop_first();
        lemma_position(rest, name);
        assert forall|i: int| 0 <= i < position(bindings, name) implies (
        #[trigger] bindings[i]).0 != name by {
            if i > 0 {
                assert(bindings[i] == rest[i - 1]);
            }
        }
    }
}

proof fn lemma_position_is(bindings: Bindings, name: Seq<char>, first: int)
    requires
        0 <= first <= bindings.len(),
        first < bindings.len() ==> bindings[first].0 == name,
        forall|i: int| 0 <= i < first ==> (#[trigger] bindings[i]).0 != name,
    ensures
        position(bindings, name) == first,
{
    lemma_position(bindings, name);
    let found = position(bindings, name);
    if found < first {
        assert(bindings[found].0 != name);
    } else if first < found {
        assert(bindings[first].0 != name);
    }
}

proof fn lemma_as_map_grows(shorter: Bindings, longer: Bindings)
    requires
        starts_with(longer, shorter),
    ensures
        within(as_map(shorter), as_map(longer)),
{
    assert forall|name: Seq<char>| #[trigger]
        as_map(shorter).contains_key(name) implies as_map(longer).contains_key(name) && as_map(
        longer,
    )[name] == as_map(shorter)[name] by {
        lemma_position(shorter, name);
        let found = position(shorter, name);
        assert(longer[found] == shorter[found]);
        assert forall|i: int| 0 <= i < found implies (#[trigger] longer[i]).0 != name by {
            assert(longer[i] == shorter[i]);
        }
        lemma_position_is(longer, name, found);
    }
}

proof fn lemma_fits_more(
    pattern: Value,
    value: Value,
    fewer: Map<Seq<char>, Value>,
    more: Map<Seq<char>, Value>,
)
    requires
        fits(pattern, value, fewer),
        within(fewer, more),
    ensures
        fits(pattern, value, more),
    decreases pattern,
{
    match pattern {
        Value::List(patterns) => {
            let values = value->List_0;
            assert forall|i: int| 0 <= i < patterns.len() implies fits(
                #[trigger] patterns[i],
                values[i],
                more,
            ) by {
                lemma_fits_more(patterns[i], values[i], fewer, more);
            }
        },
        Value::Symbol(name) => {
            assert(fewer.contains_key(name));
        },
        _ => {},
    }
}

proof fn lemma_matched_with_fits(pattern: Value, value: Value, bindings: Bindings)
    requires
        matched_with(pattern, value, bindings) is Some,
    ensures
        starts_with(matched_with(pattern, value, bindings)->Some_0, bindings),
        fits(pattern, value, as_map(matched_with(pattern, value, bindings)->Some_0)),
    decreases pattern, 0nat,
{
    let found = matched_with(pattern, value, bindings)->Some_0;
    match pattern {
        Value::Symbol(name) => {
            lemma_position(bindings, name);
            if position(bindings, name) >= bindings.len() {
                assert forall|i: int| 0 <= i < bindings.len() implies (#[trigger] found[i]).0
                    != name by {
                    assert(found[i] == bindings[i]);
                }
                lemma_position_is(found, name, bindings.len() as int);
            }
        },
        Value::List(patterns) => {
            lemma_matched_from_fits(patterns, value->List_0, 0, bindings);
        },
        _ => {},
    }
}

proof fn lemma_matched_from_fits(
    patterns: Seq<Value>,
    values: Seq<Value>,
    start: int,
    bindings: Bindings,
)
    requires
        0 <= start,
        patterns.len() == values.len(),
        matched_from(patterns, values, start, bindings) is Some,
    ensures
        starts_with(matched_from(patterns, values, start, bindings)->Some_0, bindings),
        forall|i: int|
            start <= i < patterns.len() ==> fits(
                #[trigger] patterns[i],
                values[i],
                as_map(matched_from(patterns, values, start, bindings)->Some_0),
            ),
    decreases patterns, patterns.len() - start,
{
    if start < patterns.len() {
        let found = matched_from(patterns, values, start, bindings)->Some_0;
        let next = matched_with(patterns[start], values[start], bindings)->Some_0;
        lemma_matched_with_fits(patterns[start], values[start], bindings);
        lemma_matched_from_fits(patterns, values, start + 1, next);
        lemma_as_map_grows(next, found);
        lemma_fits_more(patterns[start], values[start], as_map(next), as_map(found));
        assert forall|i: int| 0 <= i < bindings.len() implies #[trigger] found[i]
            == bindings[i] by {
            assert(next[i] == bindings[i]);
        }
    }
}

proof fn lemma_fit_is_matched_with(
    pattern: Value,
    value: Value,
    bindings: Bindings,
    named: Map<Seq<char>, Value>,
)
    requires
        fits(pattern, value, named),
        within(as_map(bindings), named),
    ensures
        matched_with(pattern, value, bindings) is Some,
        within(as_map(matched_with(pattern, value, bindings)->Some_0), named),
    decreases pattern, 0nat,
{
    match pattern {
        Value::Symbol(name) => {
            lemma_position(bindings, name);
            if position(bindings, name) < bindings.len() {
                assert(as_map(bindings).contains_key(name));
            } else {
                let found = bindings.push((name, value));
                assert forall|other: Seq<char>| #[trigger]
                    as_map(found).contains_key(other) implies named.contains_key(other)
                    && named[other] == as_map(found)[other] by {
                    lemma_position(found, other);
                    lemma_position(bindings, other);
                    let at = position(found, other);
                    if at < bindings.len() {
                        assert forall|i: int| 0 <= i < at implies (#[trigger] bindings[i]).0
                            != other by {
                            assert(found[i] == bindings[i]);
                        }
                        assert(found[at] == bindings[at]);
                        lemma_position_is(bindings, other, at);
                        assert(as_map(bindings).contains_key(other));
                    } else {
                        assert(at == bindings.len());
                        assert(found[at] == (name, value));
                        assert(other == name);
                    }
                }
            }
        },
        Value::List(patterns) => {
            lemma_fit_is_matched_from(patterns, value->List_0, 0, bindings, named);
        },
        _ => {},
    }
}

proof fn lemma_fit_is_matched_from(
    patterns: Seq<Value>,
    values: Seq<Value>,
    start: int,
    bindings: Bindings,
    named: Map<Seq<char>, Value>,
)
    requires
        0 <= start,
        patterns.len() == values.len(),
        forall|i: int| 0 <= i < patterns.len() ==> fits(#[trigger] patterns[i], values[i], named),
        within(as_map(bindings), named),
    ensures
        matched_from(patterns, values, start, bindings) is Some,
        within(as_map(matched_from(patterns, values, start, bindings)->Some_0), named),
    decreases patterns, patterns.len() - start,
{
    if start < patterns.len() {
        lemma_fit_is_matched_with(patterns[start], values[start], bindings, named);
        let next = matched_with(patterns[start], values[start], bindings)->Some_0;
        lemma_fit_is_matched_from(patterns, values, start + 1, next, named);
    }
}

/// What a match binds makes the pattern fit the value.
pub proof fn lemma_match_binds_what_fits(pattern: Value, value: Value)
    requires
        matched(pattern, value) is Some,
    ensures
        fits(pattern, value, as_map(matched(pattern, value)->Some_0)),
{
    lemma_matched_with_fits(pattern, value, Seq::empty());
}

/// Whenever some choice of values for the names makes the pattern fit the
/// value, the match succeeds, and it binds no more than that choice does, and
/// nothing else. So a pattern matches exactly when it can be made to fit,
/// and it binds exactly the names that it holds.
pub proof fn lemma_match_finds_every_fit(
    pattern: Value,
    value: Value,
    named: Map<Seq<char>, Value>,
)
    requires
        fits(pattern, value, named),
    ensures
        matched(pattern, value) is Some,
        within(as_map(matched(pattern, value)->Some_0), named),
{
    assert(within(as_map(Seq::empty()), named)) by {
        assert forall|name: Seq<char>| !as_map(Seq::empty()).contains_key(name) by {
            assert(position(Seq::<(Seq<char>, Value)>::empty(), name) == 0);
        }
    }
    lemma_fit_is_matched_with(pattern, value, Seq::empty(), named);
}

/// A name that occurs twice in a pattern must meet equal values: the pattern
/// `[x x]` matches the list `[a b]` exactly when `a` and `b` are the same.
pub proof fn lemma_repeated_name_needs_equal_values(name: Seq<char>, left: Value, right: Value)
    ensures
        matched(
            Value::List(seq![Value::Symbol(name), Value::Symbol(name)]),
            Value::List(seq![left, right]),
        ) is Some <==> left == right,
{
    let pattern = Value::List(seq![Value::Symbol(name), Value::Symbol(name)]);
    let value = Value::List(seq![left, right]);
    if matched(pattern, value) is Some {
        lemma_match_binds_what_fits(pattern, value);
        let named = as_map(matched(pattern, value)->Some_0);
        assert(fits(pattern->List_0[0], value->List_0[0], named));
        assert(fits(pattern->List_0[1], value->List_0[1], named));
    }
    if left == right {
        let named = Map::<Seq<char>, Value>::empty().insert(name, left);
        assert forall|i: int| 0 <= i < 2 implies fits(
            #[trigger] pattern->List_0[i],
            value->List_0[i],
            named,
        ) by {}
        assert(fits(pattern, value, named));
        lemma_match_finds_every_fit(pattern, value, named);
    }
}

} // verus!

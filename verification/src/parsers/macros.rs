//! Macro expansion: the pass that turns syntax into runtime expressions.
//!
//! A macro name stands in front of its arguments without brackets, so how
//! many of the following forms belong to it is known only from the macro that
//! the name is bound to: as many as the macro has parameters. Each argument
//! is expanded in its turn, and may itself be a macro call that takes forms.
//! The arguments stay syntax; nothing is evaluated here.

use crate::environment::{lookup, Environment, Store, StoreModel};
use crate::expressions::{
    lemma_models_push, models, optional_model, syntaxes, LexicalExpression, RuntimeExpression,
    Syntax, Value,
};
use crate::persistent::Slots;
use vstd::prelude::*;

verus! {

/// Why a piece of syntax cannot be expanded.
#[derive(PartialEq, Debug)]
pub enum ExpansionError {
    /// The macro name is not bound to a value.
    UndefinedMacro(String),
    /// The macro name is bound to a value that is no macro.
    NotAMacro(String),
    /// The forms ended before the macro of this name had all its arguments.
    MissingArgument(String),
    /// The macro name stands where a tag is expected.
    MisplacedMacroName(String),
    /// A comment stands where a tag is expected.
    MisplacedComment,
}

/// The model of an `ExpansionError`.
pub enum ExpansionFault {
    UndefinedMacro(Seq<char>),
    NotAMacro(Seq<char>),
    MissingArgument(Seq<char>),
    MisplacedMacroName(Seq<char>),
    MisplacedComment,
}

impl View for ExpansionError {
    type V = ExpansionFault;

    open spec fn view(&self) -> ExpansionFault {
        match *self {
            ExpansionError::UndefinedMacro(name) => ExpansionFault::UndefinedMacro(name@),
            ExpansionError::NotAMacro(name) => ExpansionFault::NotAMacro(name@),
            ExpansionError::MissingArgument(name) => ExpansionFault::MissingArgument(name@),
            ExpansionError::MisplacedMacroName(name) => ExpansionFault::MisplacedMacroName(name@),
            ExpansionError::MisplacedComment => ExpansionFault::MisplacedComment,
        }
    }
}

/// How many forms are left from `start` on.
pub open spec fn left(forms: Seq<Syntax>, start: int) -> nat {
    if 0 <= start < forms.len() {
        (forms.len() - start) as nat
    } else {
        0
    }
}

/// The expansions with one more in front, if there is one.
pub open spec fn preceded(first: Option<Value>, rest: Seq<Value>) -> Seq<Value> {
    match first {
        Some(first) => seq![first] + rest,
        None => rest,
    }
}

/// The number of parameters of the macro that `name` is bound to, or why it
/// is bound to none.
pub open spec fn arity(name: Seq<char>, environment: Slots, store: StoreModel) -> Result<
    nat,
    ExpansionFault,
> {
    match lookup(environment, name, store) {
        Some(Value::Macro(parameters, _, _)) => Ok(parameters.len()),
        Some(Value::BuiltinMacro(parameters, _)) => Ok(parameters.len()),
        Some(_) => Err(ExpansionFault::NotAMacro(name)),
        None => Err(ExpansionFault::UndefinedMacro(name)),
    }
}

/// The expansion of a form that is neither a macro name nor a comment: the
/// same shape, with the forms inside it expanded.
pub open spec fn plain(form: Syntax, environment: Slots, store: StoreModel) -> Result<
    Value,
    ExpansionFault,
>
    decreases form, 0nat, 0nat,
{
    match form {
        Syntax::MacroName(name) => Err(ExpansionFault::MisplacedMacroName(name)),
        Syntax::Comment => Err(ExpansionFault::MisplacedComment),
        Syntax::List(items) => match expansions(items, 0, environment, store) {
            Ok(items) => Ok(Value::List(items)),
            Err(fault) => Err(fault),
        },
        Syntax::TaggedTuple(tag, arguments) => match plain(*tag, environment, store) {
            Ok(tag) => match expansions(arguments, 0, environment, store) {
                Ok(arguments) => Ok(Value::TaggedTuple(Box::new(tag), arguments)),
                Err(fault) => Err(fault),
            },
            Err(fault) => Err(fault),
        },
        Syntax::Keyword(name) => Ok(Value::Keyword(name)),
        Syntax::Symbol(name) => Ok(Value::Symbol(name)),
        Syntax::Number(number) => Ok(Value::Number(number)),
        Syntax::String(text) => Ok(Value::String(text)),
        Syntax::Hole => Ok(Value::Hole),
    }
}

/// The expansion of the form at `start`, and how many forms behind it were
/// taken as arguments. A comment expands to nothing. A macro name expands to
/// a call of the macro with as many arguments as the macro has parameters,
/// each the expansion of what follows; an argument that is a comment is left
/// out.
pub open spec fn expansion(
    forms: Seq<Syntax>,
    start: int,
    environment: Slots,
    store: StoreModel,
) -> Result<(Option<Value>, nat), ExpansionFault>
    decreases forms, left(forms, start), 0nat,
{
    if 0 <= start < forms.len() {
        match forms[start] {
            Syntax::Comment => Ok((None, 0)),
            Syntax::MacroName(name) => match arity(name, environment, store) {
                Ok(count) => match arguments(
                    forms,
                    start + 1,
                    count,
                    name,
                    environment,
                    store,
                ) {
                    Ok((arguments, taken)) => Ok((Some(Value::MacroCall(name, arguments)), taken)),
                    Err(fault) => Err(fault),
                },
                Err(fault) => Err(fault),
            },
            form => match plain(form, environment, store) {
                Ok(value) => Ok((Some(value), 0)),
                Err(fault) => Err(fault),
            },
        }
    } else {
        Ok((None, 0))
    }
}

/// The next `count` expansions from `start` on, as the arguments of the macro
/// `name`, and how many forms they took.
pub open spec fn arguments(
    forms: Seq<Syntax>,
    start: int,
    count: nat,
    name: Seq<char>,
    environment: Slots,
    store: StoreModel,
) -> Result<(Seq<Value>, nat), ExpansionFault>
    decreases forms, left(forms, start), count + 1,
{
    if count == 0 {
        Ok((Seq::empty(), 0))
    } else if 0 <= start < forms.len() {
        match expansion(forms, start, environment, store) {
            Ok((first, taken)) => match arguments(
                forms,
                start + 1 + taken,
                (count - 1) as nat,
                name,
                environment,
                store,
            ) {
                Ok((rest, more)) => Ok((preceded(first, rest), 1 + taken + more)),
                Err(fault) => Err(fault),
            },
            Err(fault) => Err(fault),
        }
    } else {
        Err(ExpansionFault::MissingArgument(name))
    }
}

/// The expansions of all forms from `start` on.
pub open spec fn expansions(
    forms: Seq<Syntax>,
    start: int,
    environment: Slots,
    store: StoreModel,
) -> Result<Seq<Value>, ExpansionFault>
    decreases forms, left(forms, start), 1nat,
{
    if 0 <= start < forms.len() {
        match expansion(forms, start, environment, store) {
            Ok((first, taken)) => match expansions(
                forms,
                start + 1 + taken,
                environment,
                store,
            ) {
                Ok(rest) => Ok(preceded(first, rest)),
                Err(fault) => Err(fault),
            },
            Err(fault) => Err(fault),
        }
    } else {
        Ok(Seq::empty())
    }
}

/// The model of what expanding one form gives: the expansion and the number
/// of forms taken as arguments, or the fault.
pub open spec fn step_model(
    outcome: Result<(Option<RuntimeExpression>, usize), ExpansionError>,
    start: int,
) -> Result<(Option<Value>, nat), ExpansionFault> {
    match outcome {
        Ok((value, next)) => Ok((optional_model(value), (next - start - 1) as nat)),
        Err(error) => Err(error@),
    }
}

/// The model of what expanding several forms gives.
pub open spec fn list_model(outcome: Result<Vec<RuntimeExpression>, ExpansionError>) -> Result<
    Seq<Value>,
    ExpansionFault,
> {
    match outcome {
        Ok(values) => Ok(models(values@)),
        Err(error) => Err(error@),
    }
}

fn arity_of(name: &String, environment: &Environment, store: &Store) -> (count: Result<
    usize,
    ExpansionError,
>)
    ensures
        match count {
            Ok(count) => arity(name@, environment@, store@) == Ok::<nat, ExpansionFault>(
                count as nat,
            ),
            Err(error) => arity(name@, environment@, store@) == Err::<nat, ExpansionFault>(error@),
        },
{
    match environment.get(name.as_str(), store) {
        Some(RuntimeExpression::Macro(parameters, _, _)) => {
            proof {
                assert(crate::expressions::texts(parameters@).len() == parameters.len());
            }
            Ok(parameters.len())
        },
        Some(RuntimeExpression::BuiltinMacro(parameters, _)) => {
            proof {
                assert(crate::expressions::texts(parameters@).len() == parameters.len());
            }
            Ok(parameters.len())
        },
        Some(_) => Err(ExpansionError::NotAMacro(name.clone())),
        None => Err(ExpansionError::UndefinedMacro(name.clone())),
    }
}

fn build_non_macro(
    expression: &LexicalExpression,
    environment: &Environment,
    store: &Store,
) -> (built: Result<RuntimeExpression, ExpansionError>)
    ensures
        match built {
            Ok(value) => plain(expression@, environment@, store@) == Ok::<Value, ExpansionFault>(
                value@,
            ),
            Err(error) => plain(expression@, environment@, store@) == Err::<
                Value,
                ExpansionFault,
            >(error@),
        },
    decreases expression, 0nat, 0nat,
{
    match expression {
        LexicalExpression::MacroName(name) => Err(ExpansionError::MisplacedMacroName(name.clone())),
        LexicalExpression::Comment => Err(ExpansionError::MisplacedComment),
        LexicalExpression::List(items) => match build_many_macros(items, environment, store) {
            Ok(items) => Ok(RuntimeExpression::List(items)),
            Err(error) => Err(error),
        },
        LexicalExpression::TaggedTuple(tag, arguments) => match build_non_macro(
            tag,
            environment,
            store,
        ) {
            Ok(tag) => match build_many_macros(arguments, environment, store) {
                Ok(arguments) => Ok(RuntimeExpression::TaggedTuple(Box::new(tag), arguments)),
                Err(error) => Err(error),
            },
            Err(error) => Err(error),
        },
        LexicalExpression::Keyword(name) => Ok(RuntimeExpression::Keyword(name.clone())),
        LexicalExpression::Symbol(name) => Ok(RuntimeExpression::Symbol(name.clone())),
        LexicalExpression::Number(number) => Ok(RuntimeExpression::Number(*number)),
        LexicalExpression::String(text) => Ok(RuntimeExpression::String(text.clone())),
        LexicalExpression::Hole => Ok(RuntimeExpression::Hole),
    }
}

/// Expands the form at `start` and returns the expansion with the position
/// behind the forms that it took.
pub fn expand_at(
    forms: &Vec<LexicalExpression>,
    start: usize,
    environment: &Environment,
    store: &Store,
) -> (outcome: Result<(Option<RuntimeExpression>, usize), ExpansionError>)
    requires
        start < forms.len(),
    ensures
        step_model(outcome, start as int) == expansion(
            syntaxes(forms@),
            start as int,
            environment@,
            store@,
        ),
        outcome matches Ok((_, next)) ==> start < next <= forms.len(),
    decreases forms, forms.len() - start, 0nat,
{
    match &forms[start] {
        LexicalExpression::Comment => Ok((None, start + 1)),
        LexicalExpression::MacroName(name) => match arity_of(name, environment, store) {
            Ok(count) => match build_macro_args(
                forms,
                start + 1,
                count,
                name,
                environment,
                store,
            ) {
                Ok((arguments, next)) => Ok(
                    (Some(RuntimeExpression::MacroCall(name.clone(), arguments)), next),
                ),
                Err(error) => Err(error),
            },
            Err(error) => Err(error),
        },
        form => match build_non_macro(form, environment, store) {
            Ok(value) => Ok((Some(value), start + 1)),
            Err(error) => Err(error),
        },
    }
}

fn build_macro_args(
    forms: &Vec<LexicalExpression>,
    start: usize,
    count: usize,
    name: &String,
    environment: &Environment,
    store: &Store,
) -> (outcome: Result<(Vec<RuntimeExpression>, usize), ExpansionError>)
    requires
        start <= forms.len(),
    ensures
        match outcome {
            Ok((values, next)) => start <= next <= forms.len() && arguments(
                syntaxes(forms@),
                start as int,
                count as nat,
                name@,
                environment@,
                store@,
            ) == Ok::<(Seq<Value>, nat), ExpansionFault>((models(values@), (next - start) as nat)),
            Err(error) => arguments(
                syntaxes(forms@),
                start as int,
                count as nat,
                name@,
                environment@,
                store@,
            ) == Err::<(Seq<Value>, nat), ExpansionFault>(error@),
        },
    decreases forms, forms.len() - start, count + 1,
{
    if count == 0 {
        let none: Vec<RuntimeExpression> = Vec::new();
        proof {
            assert(models(none@) =~= Seq::empty());
        }
        Ok((none, start))
    } else if start < forms.len() {
        match expand_at(forms, start, environment, store) {
            Ok((first, next)) => match build_macro_args(
                forms,
                next,
                count - 1,
                name,
                environment,
                store,
            ) {
                Ok((rest, end)) => {
                    let mut rest = rest;
                    let ghost behind = rest@;
                    match first {
                        Some(first) => {
                            rest.insert(0, first);
                            proof {
                                assert(models(rest@) =~= seq![first@] + models(behind));
                            }
                        },
                        None => {},
                    }
                    Ok((rest, end))
                },
                Err(error) => Err(error),
            },
            Err(error) => Err(error),
        }
    } else {
        Err(ExpansionError::MissingArgument(name.clone()))
    }
}

/// Expands all of the forms, one after the other.
pub fn build_many_macros(
    incoming_exprs: &Vec<LexicalExpression>,
    environment: &Environment,
    store: &Store,
) -> (outgoing_exprs: Result<Vec<RuntimeExpression>, ExpansionError>)
    ensures
        list_model(outgoing_exprs) == expansions(
            syntaxes(incoming_exprs@),
            0,
            environment@,
            store@,
        ),
    decreases incoming_exprs, incoming_exprs.len(), 1nat,
{
    let ghost forms = syntaxes(incoming_exprs@);
    let mut outgoing: Vec<RuntimeExpression> = Vec::new();
    let mut position: usize = 0;
    proof {
        assert(models(outgoing@) =~= Seq::empty());
    }
    while position < incoming_exprs.len()
        invariant
            position <= incoming_exprs.len(),
            forms == syntaxes(incoming_exprs@),
            match expansions(forms, position as int, environment@, store@) {
                Ok(rest) => expansions(forms, 0, environment@, store@) == Ok::<
                    Seq<Value>,
                    ExpansionFault,
                >(models(outgoing@) + rest),
                Err(fault) => expansions(forms, 0, environment@, store@) == Err::<
                    Seq<Value>,
                    ExpansionFault,
                >(fault),
            },
        decreases incoming_exprs.len() - position,
    {
        match expand_at(incoming_exprs, position, environment, store) {
            Ok((first, next)) => {
                let ghost before = models(outgoing@);
                match first {
                    Some(first) => {
                        proof {
                            lemma_models_push(outgoing@, first);
                        }
                        outgoing.push(first);
                    },
                    None => {},
                }
                proof {
                    match expansions(forms, next as int, environment@, store@) {
                        Ok(rest) => {
                            assert(models(outgoing@) + rest =~= before + preceded(
                                optional_model(first),
                                rest,
                            ));
                        },
                        Err(_) => {},
                    }
                }
                position = next;
            },
            Err(error) => {
                return Err(error);
            },
        }
    }
    proof {
        assert(models(outgoing@) + Seq::<Value>::empty() =~= models(outgoing@));
    }
    Ok(outgoing)
}

/// Expands the first of the forms, together with the forms behind it that it
/// takes as arguments if it is a macro name, and returns the expansion with
/// the forms that are left. A comment gives no expansion.
pub fn build_macros(
    expressions: &Vec<LexicalExpression>,
    environment: &Environment,
    store: &Store,
) -> (outcome: Result<(Option<RuntimeExpression>, Vec<LexicalExpression>), ExpansionError>)
    requires
        expressions.len() > 0,
    ensures
        match outcome {
            Ok((value, rest)) => {
                &&& expansion(syntaxes(expressions@), 0, environment@, store@) matches Ok(
                    (expected, taken),
                )
                &&& optional_model(value) == expected
                &&& syntaxes(rest@) == syntaxes(expressions@).skip(1 + taken as int)
            },
            Err(error) => expansion(syntaxes(expressions@), 0, environment@, store@) == Err::<
                (Option<Value>, nat),
                ExpansionFault,
            >(error@),
        },
{
    match expand_at(expressions, 0, environment, store) {
        Ok((value, next)) => {
            let mut rest: Vec<LexicalExpression> = Vec::new();
            let mut position = next;
            while position < expressions.len()
                invariant
                    next <= position <= expressions.len(),
                    rest.len() == position - next,
                    forall|k: int|
                        0 <= k < rest.len() ==> (#[trigger] rest[k])@ == expressions[next + k]@,
                decreases expressions.len() - position,
            {
                rest.push(expressions[position].clone());
                position += 1;
            }
            proof {
                assert(syntaxes(rest@) =~= syntaxes(expressions@).skip(next as int));
            }
            Ok((value, rest))
        },
        Err(error) => Err(error),
    }
}

} // verus!

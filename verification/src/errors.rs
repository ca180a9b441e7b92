//! Evaluation errors. They are ordinary values, so that a program can match
//! on them: a tuple tagged `:error` that holds the kind of the error as a
//! keyword and, for most kinds, a message.

use crate::expressions::{models, RuntimeExpression, Value};
use crate::process::{Process, ProcessModel};
use vstd::prelude::*;

verus! {

/// The error value of the given kind, without a message.
pub open spec fn error_value(variety: Seq<char>) -> Value {
    Value::TaggedTuple(Box::new(Value::Keyword("error"@)), seq![Value::Keyword(variety)])
}

/// The error value of the given kind, with a message.
pub open spec fn error_message_value(variety: Seq<char>, message: Seq<char>) -> Value {
    Value::TaggedTuple(
        Box::new(Value::Keyword("error"@)),
        seq![Value::Keyword(variety), Value::String(message)],
    )
}

/// The process that has failed with an error of the given kind.
pub open spec fn failed(variety: Seq<char>, message: Seq<char>) -> ProcessModel {
    ProcessModel::Complete(error_message_value(variety, message))
}

/// The process that has failed because of its arguments.
pub open spec fn failed_argument(message: Seq<char>) -> ProcessModel {
    failed("argument"@, message)
}

/// The process that has failed because a name is not bound.
pub open spec fn failed_lookup(message: Seq<char>) -> ProcessModel {
    failed("not-found"@, message)
}

/// A completed process whose result is the error of the given kind.
pub fn error(variety: &str) -> (process: Process)
    ensures
        process@ == ProcessModel::Complete(error_value(variety@)),
{
    let tag = RuntimeExpression::Keyword(String::from_str("error"));
    let mut details: Vec<RuntimeExpression> = Vec::new();
    details.push(RuntimeExpression::Keyword(String::from_str(variety)));
    proof {
        assert(tag@ == Value::Keyword("error"@));
        assert(models(details@) =~= seq![Value::Keyword(variety@)]);
    }
    Process::Complete(RuntimeExpression::TaggedTuple(Box::new(tag), details))
}

/// A completed process whose result is the error of the given kind, with a
/// message.
pub fn error_with_message(variety: &str, message: &str) -> (process: Process)
    ensures
        process@ == failed(variety@, message@),
{
    let tag = RuntimeExpression::Keyword(String::from_str("error"));
    let mut details: Vec<RuntimeExpression> = Vec::new();
    details.push(RuntimeExpression::Keyword(String::from_str(variety)));
    details.push(RuntimeExpression::String(String::from_str(message)));
    proof {
        assert(tag@ == Value::Keyword("error"@));
        assert(models(details@) =~= seq![Value::Keyword(variety@), Value::String(message@)]);
    }
    Process::Complete(RuntimeExpression::TaggedTuple(Box::new(tag), details))
}

/// The error for arguments of the wrong number or kind.
pub fn argument_error(message: &str) -> (process: Process)
    ensures
        process@ == failed_argument(message@),
{
    error_with_message("argument", message)
}

/// The error for a name that is not bound.
pub fn not_found_error(message: &str) -> (process: Process)
    ensures
        process@ == failed_lookup(message@),
{
    error_with_message("not-found", message)
}

} // verus!

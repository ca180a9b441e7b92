//! The two trees of the language: syntax as the parser hands it over, and the
//! runtime expressions that expansion makes of it and evaluation works on.
//!
//! Each executable type has a mathematical model (`Syntax`, `Value`) built of
//! sequences and maps; contracts throughout the crate are stated over models.

use crate::environment::Environment;
use crate::persistent::Slots;
use vstd::prelude::*;

verus! {

/// Syntax before macro expansion, as the parser produces it.
#[derive(PartialEq, Debug)]
pub enum LexicalExpression {
    TaggedTuple(Box<LexicalExpression>, Vec<LexicalExpression>),
    Keyword(String),
    Hole,
    List(Vec<LexicalExpression>),
    MacroName(String),
    Number(u128),
    String(String),
    Symbol(String),
    Comment,
}

/// The model of a `LexicalExpression`.
pub enum Syntax {
    TaggedTuple(Box<Syntax>, Seq<Syntax>),
    Keyword(Seq<char>),
    Hole,
    List(Seq<Syntax>),
    MacroName(Seq<char>),
    Number(u128),
    String(Seq<char>),
    Symbol(Seq<char>),
    Comment,
}

/// The functions that are implemented natively. A call evaluates its
/// arguments first and hands the values over.
#[derive(PartialEq, Eq, Structural, Debug, Clone, Copy)]
pub enum Builtin {
    Log,
    Add,
    Subtract,
    Multiply,
    Divide,
    Remainder,
    Decrement,
    Spawn,
    /// Makes an atom.
    Atom,
    /// Reads an atom.
    Get,
    /// Reads the clock of the store.
    Time,
    /// Ends with an error that says what it was called with.
    Panic,
}

/// The macros that are implemented natively. A call hands over its arguments
/// unevaluated, together with the environment of the call.
#[derive(PartialEq, Eq, Structural, Debug, Clone, Copy)]
pub enum NativeMacro {
    Def,
    Match,
    Fn,
    Quote,
    Macro,
}

/// An expression after macro expansion: both the code that is evaluated and
/// the values that evaluation yields.
#[derive(PartialEq, Debug)]
pub enum RuntimeExpression {
    BuiltinFunction(Builtin),
    /// Parameter names, the environment closed over, and the body.
    Function(Vec<String>, Environment, Vec<RuntimeExpression>),
    /// A symbol tag applies the value bound to it; a keyword tag builds data.
    TaggedTuple(Box<RuntimeExpression>, Vec<RuntimeExpression>),
    Hole,
    List(Vec<RuntimeExpression>),
    BuiltinMacro(Vec<String>, NativeMacro),
    Macro(Vec<String>, Environment, Vec<RuntimeExpression>),
    MacroCall(String, Vec<RuntimeExpression>),
    Number(u128),
    String(String),
    Symbol(String),
    Keyword(String),
    /// A name and the value it was bound to, as `Def` yields it.
    Definition(String, Box<RuntimeExpression>),
    /// A handle to a mutable cell of the store. Two atoms are the same where
    /// they are the same cell, whatever the cells hold.
    Atom(usize),
}

/// The model of a `RuntimeExpression`.
pub enum Value {
    BuiltinFunction(Builtin),
    Function(Seq<Seq<char>>, Slots, Seq<Value>),
    TaggedTuple(Box<Value>, Seq<Value>),
    Hole,
    List(Seq<Value>),
    BuiltinMacro(Seq<Seq<char>>, NativeMacro),
    Macro(Seq<Seq<char>>, Slots, Seq<Value>),
    MacroCall(Seq<char>, Seq<Value>),
    Number(u128),
    String(Seq<char>),
    Symbol(Seq<char>),
    Keyword(Seq<char>),
    Definition(Seq<char>, Box<Value>),
    Atom(usize),
}

/// The models of a sequence of strings.
pub open spec fn texts(strings: Seq<String>) -> Seq<Seq<char>> {
    Seq::new(strings.len(), |i: int| strings[i]@)
}

/// The models of a sequence of syntax trees.
pub open spec fn syntaxes(forms: Seq<LexicalExpression>) -> Seq<Syntax>
    decreases forms,
{
    Seq::new(
        forms.len(),
        |i: int|
            if 0 <= i < forms.len() {
                forms[i].model()
            } else {
                arbitrary()
            },
    )
}

/// The models of a sequence of runtime expressions.
pub open spec fn models(items: Seq<RuntimeExpression>) -> Seq<Value>
    decreases items,
{
    Seq::new(
        items.len(),
        |i: int|
            if 0 <= i < items.len() {
                items[i].model()
            } else {
                arbitrary()
            },
    )
}

impl LexicalExpression {
    /// The mathematical model of the value.
    pub open spec fn model(self) -> Syntax
        decreases self,
    {
        match self {
            LexicalExpression::TaggedTuple(tag, arguments) => Syntax::TaggedTuple(
                Box::new(tag.model()),
                syntaxes(arguments@),
            ),
            LexicalExpression::Keyword(name) => Syntax::Keyword(name@),
            LexicalExpression::Hole => Syntax::Hole,
            LexicalExpression::List(items) => Syntax::List(syntaxes(items@)),
            LexicalExpression::MacroName(name) => Syntax::MacroName(name@),
            LexicalExpression::Number(value) => Syntax::Number(value),
            LexicalExpression::String(text) => Syntax::String(text@),
            LexicalExpression::Symbol(name) => Syntax::Symbol(name@),
            LexicalExpression::Comment => Syntax::Comment,
        }
    }
}

impl View for LexicalExpression {
    type V = Syntax;

    open spec fn view(&self) -> Syntax {
        self.model()
    }
}

impl Clone for LexicalExpression {
    fn clone(&self) -> (copy: LexicalExpression)
        ensures
            copy@ == self@,
    {
        self.duplicate()
    }
}

impl RuntimeExpression {
    /// The mathematical model of the value.
    pub open spec fn model(self) -> Value
        decreases self,
    {
        match self {
            RuntimeExpression::BuiltinFunction(builtin) => Value::BuiltinFunction(builtin),
            RuntimeExpression::Function(parameters, environment, body) => Value::Function(
                texts(parameters@),
                environment@,
                models(body@),
            ),
            RuntimeExpression::TaggedTuple(tag, arguments) => Value::TaggedTuple(
                Box::new(tag.model()),
                models(arguments@),
            ),
            RuntimeExpression::Hole => Value::Hole,
            RuntimeExpression::List(items) => Value::List(models(items@)),
            RuntimeExpression::BuiltinMacro(parameters, native) => Value::BuiltinMacro(
                texts(parameters@),
                native,
            ),
            RuntimeExpression::Macro(parameters, environment, body) => Value::Macro(
                texts(parameters@),
                environment@,
                models(body@),
            ),
            RuntimeExpression::MacroCall(name, arguments) => Value::MacroCall(
                name@,
                models(arguments@),
            ),
            RuntimeExpression::Number(value) => Value::Number(value),
            RuntimeExpression::String(text) => Value::String(text@),
            RuntimeExpression::Symbol(name) => Value::Symbol(name@),
            RuntimeExpression::Keyword(name) => Value::Keyword(name@),
            RuntimeExpression::Definition(name, value) => Value::Definition(
                name@,
                Box::new(value.model()),
            ),
            RuntimeExpression::Atom(cell) => Value::Atom(cell),
        }
    }
}

impl View for RuntimeExpression {
    type V = Value;

    open spec fn view(&self) -> Value {
        self.model()
    }
}

impl Clone for RuntimeExpression {
    fn clone(&self) -> (copy: RuntimeExpression)
        ensures
            copy@ == self@,
    {
        self.duplicate()
    }
}

/// The model of an optional runtime expression.
pub open spec fn optional_model(value: Option<RuntimeExpression>) -> Option<Value> {
    match value {
        Some(value) => Some(value@),
        None => None,
    }
}

/// The models of a sequence with one more expression behind it.
pub proof fn lemma_models_push(items: Seq<RuntimeExpression>, last: RuntimeExpression)
    ensures
        models(items.push(last)) == models(items).push(last@),
{
    assert(models(items.push(last)) =~= models(items).push(last@));
}

/// The models of a sequence with one more string behind it.
pub proof fn lemma_texts_push(strings: Seq<String>, last: String)
    ensures
        texts(strings.push(last)) == texts(strings).push(last@),
{
    assert(texts(strings.push(last)) =~= texts(strings).push(last@));
}

/// The models of a sequence with one more form behind it.
pub proof fn lemma_syntaxes_push(forms: Seq<LexicalExpression>, last: LexicalExpression)
    ensures
        syntaxes(forms.push(last)) == syntaxes(forms).push(last@),
{
    assert(syntaxes(forms.push(last)) =~= syntaxes(forms).push(last@));
}

/// Whether the form is a comment.
pub fn is_comment(expression: &LexicalExpression) -> (comment: bool)
    ensures
        comment == (expression@ is Comment),
{
    match expression {
        LexicalExpression::Comment => true,
        _ => false,
    }
}

/// A copy of a list of names.
pub fn copy_names(names: &Vec<String>) -> (copy: Vec<String>)
    ensures
        texts(copy@) == texts(names@),
{
    let mut copy: Vec<String> = Vec::new();
    let mut i: usize = 0;
    while i < names.len()
        invariant
            i <= names.len(),
            texts(copy@) == texts(names@.take(i as int)),
        decreases names.len() - i,
    {
        proof {
            lemma_texts_push(copy@, names[i as int]);
            assert(names@.take(i as int + 1) =~= names@.take(i as int).push(names[i as int]));
        }
        copy.push(names[i].clone());
        i += 1;
    }
    proof {
        assert(names@.take(i as int) =~= names@);
    }
    copy
}

impl LexicalExpression {
    /// A copy of the form.
    pub fn duplicate(&self) -> (copy: LexicalExpression)
        ensures
            copy@ == self@,
        decreases self,
    {
        match self {
            LexicalExpression::TaggedTuple(tag, arguments) => LexicalExpression::TaggedTuple(
                Box::new(tag.duplicate()),
                copy_forms(arguments),
            ),
            LexicalExpression::Keyword(name) => LexicalExpression::Keyword(name.clone()),
            LexicalExpression::Hole => LexicalExpression::Hole,
            LexicalExpression::List(items) => LexicalExpression::List(copy_forms(items)),
            LexicalExpression::MacroName(name) => LexicalExpression::MacroName(name.clone()),
            LexicalExpression::Number(value) => LexicalExpression::Number(*value),
            LexicalExpression::String(text) => LexicalExpression::String(text.clone()),
            LexicalExpression::Symbol(name) => LexicalExpression::Symbol(name.clone()),
            LexicalExpression::Comment => LexicalExpression::Comment,
        }
    }
}

/// A copy of a list of forms.
pub fn copy_forms(forms: &Vec<LexicalExpression>) -> (copy: Vec<LexicalExpression>)
    ensures
        syntaxes(copy@) == syntaxes(forms@),
    decreases forms,
{
    let mut copy: Vec<LexicalExpression> = Vec::new();
    let mut i: usize = 0;
    while i < forms.len()
        invariant
            i <= forms.len(),
            syntaxes(copy@) == syntaxes(forms@.take(i as int)),
        decreases forms.len() - i,
    {
        let form = forms[i].duplicate();
        proof {
            lemma_syntaxes_push(copy@, form);
            lemma_syntaxes_push(forms@.take(i as int), forms[i as int]);
            assert(forms@.take(i as int + 1) =~= forms@.take(i as int).push(forms[i as int]));
        }
        copy.push(form);
        i += 1;
    }
    proof {
        assert(forms@.take(i as int) =~= forms@);
    }
    copy
}

impl RuntimeExpression {
    /// A copy of the expression.
    pub fn duplicate(&self) -> (copy: RuntimeExpression)
        ensures
            copy@ == self@,
        decreases self,
    {
        match self {
            RuntimeExpression::BuiltinFunction(builtin) => RuntimeExpression::BuiltinFunction(
                *builtin,
            ),
            RuntimeExpression::Function(parameters, environment, body) => {
                RuntimeExpression::Function(
                    copy_names(parameters),
                    environment.clone(),
                    copy_values(body),
                )
            },
            RuntimeExpression::TaggedTuple(tag, arguments) => RuntimeExpression::TaggedTuple(
                Box::new(tag.duplicate()),
                copy_values(arguments),
            ),
            RuntimeExpression::Hole => RuntimeExpression::Hole,
            RuntimeExpression::List(items) => RuntimeExpression::List(copy_values(items)),
            RuntimeExpression::BuiltinMacro(parameters, native) => RuntimeExpression::BuiltinMacro(
                copy_names(parameters),
                *native,
            ),
            RuntimeExpression::Macro(parameters, environment, body) => RuntimeExpression::Macro(
                copy_names(parameters),
                environment.clone(),
                copy_values(body),
            ),
            RuntimeExpression::MacroCall(name, arguments) => RuntimeExpression::MacroCall(
                name.clone(),
                copy_values(arguments),
            ),
            RuntimeExpression::Number(value) => RuntimeExpression::Number(*value),
            RuntimeExpression::String(text) => RuntimeExpression::String(text.clone()),
            RuntimeExpression::Symbol(name) => RuntimeExpression::Symbol(name.clone()),
            RuntimeExpression::Keyword(name) => RuntimeExpression::Keyword(name.clone()),
            RuntimeExpression::Definition(name, value) => RuntimeExpression::Definition(
                name.clone(),
                Box::new(value.duplicate()),
            ),
            RuntimeExpression::Atom(cell) => RuntimeExpression::Atom(*cell),
        }
    }
}

/// A copy of a list of expressions.
pub fn copy_values(items: &Vec<RuntimeExpression>) -> (copy: Vec<RuntimeExpression>)
    ensures
        models(copy@) == models(items@),
    decreases items,
{
    let mut copy: Vec<RuntimeExpression> = Vec::new();
    let mut i: usize = 0;
    while i < items.len()
        invariant
            i <= items.len(),
            models(copy@) == models(items@.take(i as int)),
        decreases items.len() - i,
    {
        let item = items[i].duplicate();
        proof {
            lemma_models_push(copy@, item);
            lemma_models_push(items@.take(i as int), items[i as int]);
            assert(items@.take(i as int + 1) =~= items@.take(i as int).push(items[i as int]));
        }
        copy.push(item);
        i += 1;
    }
    proof {
        assert(items@.take(i as int) =~= items@);
    }
    copy
}

/// Whether two lists of names are the same.
pub fn same_names(left: &Vec<String>, right: &Vec<String>) -> (same: bool)
    ensures
        same == (texts(left@) == texts(right@)),
{
    if left.len() != right.len() {
        proof {
            assert(texts(left@).len() != texts(right@).len());
        }
        return false;
    }
    let mut i: usize = 0;
    while i < left.len()
        invariant
            i <= left.len(),
            left.len() == right.len(),
            forall|k: int| 0 <= k < i ==> left[k]@ == right[k]@,
        decreases left.len() - i,
    {
        if left[i] != right[i] {
            proof {
                assert(texts(left@)[i as int] != texts(right@)[i as int]);
            }
            return false;
        }
        i += 1;
    }
    proof {
        assert(texts(left@) =~= texts(right@));
    }
    true
}

impl RuntimeExpression {
    /// Whether two expressions are structurally the same. Environments are
    /// the same where they bind the same names to the same cells.
    pub fn same(&self, other: &RuntimeExpression) -> (same: bool)
        ensures
            same == (self@ == other@),
        decreases self,
    {
        match (self, other) {
            (RuntimeExpression::BuiltinFunction(a), RuntimeExpression::BuiltinFunction(b)) => *a
                == *b,
            (
                RuntimeExpression::Function(parameters, environment, body),
                RuntimeExpression::Function(other_parameters, other_environment, other_body),
            ) => same_names(parameters, other_parameters) && environment.same(other_environment)
                && same_values(body, other_body),
            (
                RuntimeExpression::TaggedTuple(tag, arguments),
                RuntimeExpression::TaggedTuple(other_tag, other_arguments),
            ) => tag.same(other_tag) && same_values(arguments, other_arguments),
            (RuntimeExpression::Hole, RuntimeExpression::Hole) => true,
            (RuntimeExpression::List(items), RuntimeExpression::List(other_items)) => same_values(
                items,
                other_items,
            ),
            (
                RuntimeExpression::BuiltinMacro(parameters, native),
                RuntimeExpression::BuiltinMacro(other_parameters, other_native),
            ) => same_names(parameters, other_parameters) && *native == *other_native,
            (
                RuntimeExpression::Macro(parameters, environment, body),
                RuntimeExpression::Macro(other_parameters, other_environment, other_body),
            ) => same_names(parameters, other_parameters) && environment.same(other_environment)
                && same_values(body, other_body),
            (
                RuntimeExpression::MacroCall(name, arguments),
                RuntimeExpression::MacroCall(other_name, other_arguments),
            ) => *name == *other_name && same_values(arguments, other_arguments),
            (RuntimeExpression::Number(a), RuntimeExpression::Number(b)) => *a == *b,
            (RuntimeExpression::String(a), RuntimeExpression::String(b)) => *a == *b,
            (RuntimeExpression::Symbol(a), RuntimeExpression::Symbol(b)) => *a == *b,
            (RuntimeExpression::Keyword(a), RuntimeExpression::Keyword(b)) => *a == *b,
            (
                RuntimeExpression::Definition(name, value),
                RuntimeExpression::Definition(other_name, other_value),
            ) => *name == *other_name && value.same(other_value),
            (RuntimeExpression::Atom(a), RuntimeExpression::Atom(b)) => *a == *b,
            _ => false,
        }
    }
}

/// Whether two lists of expressions are the same, item by item.
pub fn same_values(left: &Vec<RuntimeExpression>, right: &Vec<RuntimeExpression>) -> (same: bool)
    ensures
        same == (models(left@) == models(right@)),
    decreases left,
{
    if left.len() != right.len() {
        proof {
            assert(models(left@).len() != models(right@).len());
        }
        return false;
    }
    let mut i: usize = 0;
    while i < left.len()
        invariant
            i <= left.len(),
            left.len() == right.len(),
            forall|k: int| 0 <= k < i ==> left[k]@ == right[k]@,
        decreases left.len() - i,
    {
        if !left[i].same(&right[i]) {
            proof {
                assert(models(left@)[i as int] != models(right@)[i as int]);
            }
            return false;
        }
        i += 1;
    }
    proof {
        assert(models(left@) =~= models(right@));
    }
    true
}

/// The parts joined into one text, with the separator between neighbours.
pub open spec fn joined(parts: Seq<Seq<char>>, separator: Seq<char>) -> Seq<char>
    decreases parts.len(),
{
    if parts.len() == 0 {
        Seq::empty()
    } else if parts.len() == 1 {
        parts[0]
    } else {
        joined(parts.drop_last(), separator) + separator + parts.last()
    }
}

/// The text of one decimal digit.
pub open spec fn digit_text(digit: int) -> Seq<char> {
    if digit == 0 {
        "0"@
    } else if digit == 1 {
        "1"@
    } else if digit == 2 {
        "2"@
    } else if digit == 3 {
        "3"@
    } else if digit == 4 {
        "4"@
    } else if digit == 5 {
        "5"@
    } else if digit == 6 {
        "6"@
    } else if digit == 7 {
        "7"@
    } else if digit == 8 {
        "8"@
    } else {
        "9"@
    }
}

/// A number written in decimal, without leading zeros.
pub open spec fn decimal(number: nat) -> Seq<char>
    decreases number,
{
    if number < 10 {
        digit_text(number as int)
    } else {
        decimal(number / 10) + digit_text((number % 10) as int)
    }
}

/// The printed form of each value of a sequence.
pub open spec fn printed_each(values: Seq<Value>) -> Seq<Seq<char>>
    decreases values, 0nat,
{
    Seq::new(
        values.len(),
        |i: int|
            if 0 <= i < values.len() {
                printed(values[i])
            } else {
                arbitrary()
            },
    )
}

/// The printed forms of the values, joined by the separator.
pub open spec fn printed_many(values: Seq<Value>, separator: Seq<char>) -> Seq<char>
    decreases values, 1nat,
{
    joined(printed_each(values), separator)
}

/// The printed form of a value. Functions and macros show their parameters
/// only, and an atom shows nothing of itself; everything else prints as it is
/// written in source text.
pub open spec fn printed(value: Value) -> Seq<char>
    decreases value, 0nat,
{
    match value {
        Value::BuiltinFunction(_) => "BuiltinFunction(..)"@,
        Value::Function(parameters, _, _) => "Function(["@ + joined(parameters, " "@) + "] _)"@,
        Value::BuiltinMacro(parameters, _) => "BuiltinMacro(["@ + joined(parameters, " "@)
            + "] _)"@,
        Value::Definition(name, value) => "Definition("@ + name + " "@ + printed(*value) + ")"@,
        Value::Hole => "_"@,
        Value::Keyword(name) => ":"@ + name,
        Value::List(values) => "["@ + printed_many(values, " "@) + "]"@,
        Value::Macro(parameters, _, _) => "Macro(["@ + joined(parameters, " "@) + "] _)"@,
        Value::MacroCall(name, arguments) => name + "("@ + printed_many(arguments, " "@) + ")"@,
        Value::Number(number) => decimal(number as nat),
        Value::String(text) => "\""@ + text + "\""@,
        Value::Symbol(name) => name,
        Value::TaggedTuple(tag, values) => printed(*tag) + "("@ + printed_many(values, " "@)
            + ")"@,
        Value::Atom(_) => "Atom(..)"@,
    }
}

fn digit_str(digit: u128) -> (text: &'static str)
    requires
        digit < 10,
    ensures
        text@ == digit_text(digit as int),
{
    if digit == 0 {
        "0"
    } else if digit == 1 {
        "1"
    } else if digit == 2 {
        "2"
    } else if digit == 3 {
        "3"
    } else if digit == 4 {
        "4"
    } else if digit == 5 {
        "5"
    } else if digit == 6 {
        "6"
    } else if digit == 7 {
        "7"
    } else if digit == 8 {
        "8"
    } else {
        "9"
    }
}

/// Appends the decimal form of `number` to `out`.
pub fn write_decimal(number: u128, out: &mut String)
    ensures
        final(out)@ == old(out)@ + decimal(number as nat),
    decreases number,
{
    if number >= 10 {
        write_decimal(number / 10, out);
    }
    out.append(digit_str(number % 10));
    proof {
        if number >= 10 {
            assert(final(out)@ =~= old(out)@ + decimal(number as nat));
        }
    }
}

/// Joins the strings, with the separator between neighbours.
pub fn print_strings(strings: &Vec<String>, separator: &str) -> (text: String)
    ensures
        text@ == joined(texts(strings@), separator@),
{
    let mut text = String::new();
    let mut i: usize = 0;
    while i < strings.len()
        invariant
            i <= strings.len(),
            text@ == joined(texts(strings@.take(i as int)), separator@),
        decreases strings.len() - i,
    {
        proof {
            let before = texts(strings@.take(i as int));
            let after = texts(strings@.take(i as int + 1));
            assert(after.drop_last() =~= before);
            assert(after.last() == strings[i as int]@);
            if i == 0 {
                assert(text@ + strings[i as int]@ =~= joined(after, separator@));
            } else {
                assert(text@ + separator@ + strings[i as int]@ =~= joined(after, separator@));
            }
        }
        if i > 0 {
            text.append(separator);
        }
        text.append(strings[i].as_str());
        i += 1;
    }
    proof {
        assert(strings@.take(i as int) =~= strings@);
    }
    text
}

/// Prints an expression.
pub fn print(expression: RuntimeExpression) -> (text: String)
    ensures
        text@ == printed(expression@),
{
    render(&expression)
}

/// Prints the expressions, with the separator between neighbours.
pub fn print_many(expressions: Vec<RuntimeExpression>, separator: &str) -> (text: String)
    ensures
        text@ == printed_many(models(expressions@), separator@),
{
    render_many(&expressions, separator)
}

/// Prints an expression that is borrowed.
pub fn render(expression: &RuntimeExpression) -> (text: String)
    ensures
        text@ == printed(expression@),
    decreases expression,
{
    match expression {
        RuntimeExpression::BuiltinFunction(_) => String::from_str("BuiltinFunction(..)"),
        RuntimeExpression::Function(parameters, _, _) => {
            let mut text = String::from_str("Function([");
            text.append(print_strings(parameters, " ").as_str());
            text.append("] _)");
            text
        },
        RuntimeExpression::BuiltinMacro(parameters, _) => {
            let mut text = String::from_str("BuiltinMacro([");
            text.append(print_strings(parameters, " ").as_str());
            text.append("] _)");
            text
        },
        RuntimeExpression::Definition(name, value) => {
            let mut text = String::from_str("Definition(");
            text.append(name.as_str());
            text.append(" ");
            text.append(render(value).as_str());
            text.append(")");
            text
        },
        RuntimeExpression::Hole => String::from_str("_"),
        RuntimeExpression::Keyword(name) => {
            let mut text = String::from_str(":");
            text.append(name.as_str());
            text
        },
        RuntimeExpression::List(values) => {
            let mut text = String::from_str("[");
            text.append(render_many(values, " ").as_str());
            text.append("]");
            text
        },
        RuntimeExpression::Macro(parameters, _, _) => {
            let mut text = String::from_str("Macro([");
            text.append(print_strings(parameters, " ").as_str());
            text.append("] _)");
            text
        },
        RuntimeExpression::MacroCall(name, arguments) => {
            let mut text = name.clone();
            text.append("(");
            text.append(render_many(arguments, " ").as_str());
            text.append(")");
            text
        },
        RuntimeExpression::Number(number) => {
            let mut text = String::new();
            write_decimal(*number, &mut text);
            text
        },
        RuntimeExpression::String(value) => {
            let mut text = String::from_str("\"");
            text.append(value.as_str());
            text.append("\"");
            text
        },
        RuntimeExpression::Symbol(name) => name.clone(),
        RuntimeExpression::TaggedTuple(tag, values) => {
            let mut text = render(tag);
            text.append("(");
            text.append(render_many(values, " ").as_str());
            text.append(")");
            text
        },
        RuntimeExpression::Atom(_) => String::from_str("Atom(..)"),
    }
}

/// Prints borrowed expressions, with the separator between neighbours.
pub fn render_many(expressions: &Vec<RuntimeExpression>, separator: &str) -> (text: String)
    ensures
        text@ == printed_many(models(expressions@), separator@),
    decreases expressions,
{
    let mut text = String::new();
    let mut i: usize = 0;
    while i < expressions.len()
        invariant
            i <= expressions.len(),
            text@ == printed_many(models(expressions@.take(i as int)), separator@),
        decreases expressions.len() - i,
    {
        let part = render(&expressions[i]);
        proof {
            let before = printed_each(models(expressions@.take(i as int)));
            let after = printed_each(models(expressions@.take(i as int + 1)));
            assert(after.drop_last() =~= before);
            assert(after.last() == part@);
            if i == 0 {
                assert(text@ + part@ =~= joined(after, separator@));
            } else {
                assert(text@ + separator@ + part@ =~= joined(after, separator@));
            }
        }
        if i > 0 {
            text.append(separator);
        }
        text.append(part.as_str());
        i += 1;
    }
    proof {
        assert(expressions@.take(i as int) =~= expressions@);
    }
    text
}

} // verus!

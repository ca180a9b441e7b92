//! The grammar of the language.
//!
//! A program is a run of forms, each of which may have blanks around it. A
//! form is, in the order in which they are tried:
//!
//! - a comment, from `#` to the end of the line;
//! - a tagged tuple: a tag directly followed by forms in round brackets,
//!   where the tag is a value name, a keyword, a list, a macro name or a
//!   string;
//! - a keyword, `:` and a word that starts in lower case;
//! - the hole, `_`;
//! - a list of forms in square brackets;
//! - a macro name, a word that starts in upper case;
//! - a number in decimal digits, which must fit 128 bits;
//! - a string in double quotes, which holds no double quote;
//! - a value name, a word that starts in lower case.
//!
//! The first alternative that reads something decides, and a run of forms
//! ends in front of the first thing that is no form.

use crate::expressions::{
    decimal, digit_text, lemma_syntaxes_push, syntaxes, LexicalExpression, Syntax,
};
use crate::parsers::general::{
    characters, rest, run, skip, text_between, word, word_end, CharClass,
};
use vstd::prelude::*;

verus! {

/// How many characters are left from `start` on.
pub open spec fn left(text: Seq<char>, start: nat) -> nat {
    if start <= text.len() {
        (text.len() - start) as nat
    } else {
        0
    }
}

/// Whether the character at `at` is the given one.
pub open spec fn is_at(text: Seq<char>, at: nat, character: char) -> bool {
    at < text.len() && text[at as int] == character
}

/// The number that the digits denote.
pub open spec fn decimal_value(digits: Seq<char>) -> nat
    decreases digits.len(),
{
    if digits.len() == 0 {
        0
    } else {
        decimal_value(digits.drop_last()) * 10 + (digits.last() as int - '0' as int) as nat
    }
}

/// The text from `from` on of the given length.
pub open spec fn slice(text: Seq<char>, from: nat, length: nat) -> Seq<char> {
    text.subrange(from as int, from as int + length)
}

/// A comment at `at`, and its length with the line feed that ends it.
pub open spec fn comment_at(text: Seq<char>, at: nat) -> Option<(Syntax, nat)> {
    let line = run(text, at + 1, CharClass::Not('\n'));
    if is_at(text, at, '#') && is_at(text, at + 1 + line, '\n') {
        Some((Syntax::Comment, line + 2))
    } else {
        None
    }
}

/// A macro name at `at`.
pub open spec fn macro_name_at(text: Seq<char>, at: nat) -> Option<(Syntax, nat)> {
    match word(text, at, CharClass::Upper) {
        Some(length) => Some((Syntax::MacroName(slice(text, at, length)), length)),
        None => None,
    }
}

/// A value name at `at`.
pub open spec fn value_name_at(text: Seq<char>, at: nat) -> Option<(Syntax, nat)> {
    match word(text, at, CharClass::Lower) {
        Some(length) => Some((Syntax::Symbol(slice(text, at, length)), length)),
        None => None,
    }
}

/// A keyword at `at`.
pub open spec fn keyword_at(text: Seq<char>, at: nat) -> Option<(Syntax, nat)> {
    if is_at(text, at, ':') {
        match word(text, at + 1, CharClass::Lower) {
            Some(length) => Some((Syntax::Keyword(slice(text, at + 1, length)), length + 1)),
            None => None,
        }
    } else {
        None
    }
}

/// The hole at `at`.
pub open spec fn hole_at(text: Seq<char>, at: nat) -> Option<(Syntax, nat)> {
    if is_at(text, at, '_') {
        Some((Syntax::Hole, 1))
    } else {
        None
    }
}

/// A number at `at`.
pub open spec fn number_at(text: Seq<char>, at: nat) -> Option<(Syntax, nat)> {
    let length = run(text, at, CharClass::Digit);
    let value = decimal_value(slice(text, at, length));
    if length > 0 && value <= u128::MAX {
        Some((Syntax::Number(value as u128), length))
    } else {
        None
    }
}

/// A string at `at`.
pub open spec fn string_at(text: Seq<char>, at: nat) -> Option<(Syntax, nat)> {
    let length = run(text, at + 1, CharClass::Not('"'));
    if is_at(text, at, '"') && is_at(text, at + 1 + length, '"') {
        Some((Syntax::String(slice(text, at + 1, length)), length + 2))
    } else {
        None
    }
}

/// The forms in brackets at `at`, the brackets being `open` and `close`, and
/// their length with the brackets.
pub open spec fn bracketed_at(text: Seq<char>, at: nat, open: char, close: char) -> Option<
    (Seq<Syntax>, nat),
>
    decreases left(text, at), 0nat,
{
    if is_at(text, at, open) {
        let (items, length) = forms_at(text, at + 1);
        if is_at(text, at + 1 + length, close) {
            Some((items, length + 2))
        } else {
            None
        }
    } else {
        None
    }
}

/// A list at `at`.
pub open spec fn list_at(text: Seq<char>, at: nat) -> Option<(Syntax, nat)>
    decreases left(text, at), 1nat,
{
    match bracketed_at(text, at, '[', ']') {
        Some((items, length)) => Some((Syntax::List(items), length)),
        None => None,
    }
}

/// What may stand as a tag at `at`.
pub open spec fn tag_at(text: Seq<char>, at: nat) -> Option<(Syntax, nat)>
    decreases left(text, at), 2nat,
{
    if value_name_at(text, at) is Some {
        value_name_at(text, at)
    } else if keyword_at(text, at) is Some {
        keyword_at(text, at)
    } else if list_at(text, at) is Some {
        list_at(text, at)
    } else if macro_name_at(text, at) is Some {
        macro_name_at(text, at)
    } else {
        string_at(text, at)
    }
}

/// A tagged tuple at `at`.
pub open spec fn tagged_tuple_at(text: Seq<char>, at: nat) -> Option<(Syntax, nat)>
    decreases left(text, at), 3nat,
{
    match tag_at(text, at) {
        Some((tag, length)) => match bracketed_at(text, at + length, '(', ')') {
            Some((arguments, more)) => Some(
                (Syntax::TaggedTuple(Box::new(tag), arguments), length + more),
            ),
            None => None,
        },
        None => None,
    }
}

/// A form at `at`, without blanks around it.
pub open spec fn form_at(text: Seq<char>, at: nat) -> Option<(Syntax, nat)>
    decreases left(text, at), 4nat,
{
    if comment_at(text, at) is Some {
        comment_at(text, at)
    } else if tagged_tuple_at(text, at) is Some {
        tagged_tuple_at(text, at)
    } else if keyword_at(text, at) is Some {
        keyword_at(text, at)
    } else if hole_at(text, at) is Some {
        hole_at(text, at)
    } else if list_at(text, at) is Some {
        list_at(text, at)
    } else if macro_name_at(text, at) is Some {
        macro_name_at(text, at)
    } else if number_at(text, at) is Some {
        number_at(text, at)
    } else if string_at(text, at) is Some {
        string_at(text, at)
    } else {
        value_name_at(text, at)
    }
}

/// A form at `start` with the blanks around it, and the length of all of it.
pub open spec fn expression_at(text: Seq<char>, start: nat) -> Option<(Syntax, nat)>
    decreases left(text, start), 5nat,
{
    let lead = run(text, start, CharClass::Blank);
    match form_at(text, start + lead) {
        Some((form, length)) => Some(
            (form, lead + length + run(text, start + lead + length, CharClass::Blank)),
        ),
        None => None,
    }
}

/// The forms from `start` on, up to the first thing that is no form, and
/// their length.
pub open spec fn forms_at(text: Seq<char>, start: nat) -> (Seq<Syntax>, nat)
    decreases left(text, start), 6nat,
{
    if start < text.len() {
        match expression_at(text, start) {
            Some((form, length)) => if length > 0 {
                let (others, more) = forms_at(text, start + length);
                (seq![form] + others, length + more)
            } else {
                (Seq::empty(), 0)
            },
            None => (Seq::empty(), 0),
        }
    } else {
        (Seq::empty(), 0)
    }
}

/// The model of what a parser read from `at` on: the form and its length.
pub open spec fn read(parsed: Option<(LexicalExpression, usize)>, at: usize) -> Option<
    (Syntax, nat),
> {
    match parsed {
        Some((form, end)) => Some((form@, (end - at) as nat)),
        None => None,
    }
}

/// Whether the parser stayed inside the text and went forward.
pub open spec fn advanced(
    parsed: Option<(LexicalExpression, usize)>,
    at: usize,
    length: usize,
) -> bool {
    parsed matches Some((_, end)) ==> at < end <= length
}

/// Every character of a run is of the kind of the run.
proof fn lemma_run_accepts(text: Seq<char>, start: nat, class: CharClass, at: nat)
    requires
        start <= at < start + run(text, start, class),
    ensures
        at < text.len(),
        class.accepts(text[at as int]),
    decreases text.len() - start,
{
    if start < text.len() && class.accepts(text[start as int]) {
        if at > start {
            lemma_run_accepts(text, start + 1, class, at);
        }
    }
}

/// A number is no less than the number that its leading digits denote.
proof fn lemma_decimal_value_grows(digits: Seq<char>, shorter: int)
    requires
        0 <= shorter <= digits.len(),
        forall|i: int| 0 <= i < digits.len() ==> '0' <= #[trigger] digits[i] <= '9',
    ensures
        decimal_value(digits.take(shorter)) <= decimal_value(digits),
    decreases digits.len() - shorter,
{
    if shorter < digits.len() {
        lemma_decimal_value_grows(digits, shorter + 1);
        assert(digits.take(shorter + 1).drop_last() =~= digits.take(shorter));
    } else {
        assert(digits.take(shorter) =~= digits);
    }
}

fn is_here(chars: &Vec<char>, at: usize, character: char) -> (here: bool)
    ensures
        here == is_at(chars@, at as nat, character),
{
    at < chars.len() && chars[at] == character
}

fn parse_comment(chars: &Vec<char>, at: usize) -> (parsed: Option<(LexicalExpression, usize)>)
    requires
        at <= chars.len(),
    ensures
        read(parsed, at) == comment_at(chars@, at as nat),
        advanced(parsed, at, chars.len()),
{
    if is_here(chars, at, '#') {
        let end = skip(chars, at + 1, CharClass::Not('\n'));
        if is_here(chars, end, '\n') {
            return Some((LexicalExpression::Comment, end + 1));
        }
    }
    None
}

fn parse_word(chars: &Vec<char>, at: usize, first: CharClass) -> (parsed: Option<(String, usize)>)
    requires
        at <= chars.len(),
    ensures
        match parsed {
            Some((name, end)) => at < end <= chars.len() && word(chars@, at as nat, first) == Some(
                (end - at) as nat,
            ) && name@ == slice(chars@, at as nat, (end - at) as nat),
            None => word(chars@, at as nat, first) is None,
        },
{
    match word_end(chars, at, first) {
        Some(end) => Some((text_between(chars, at, end), end)),
        None => None,
    }
}

fn parse_macro_name(chars: &Vec<char>, at: usize) -> (parsed: Option<(LexicalExpression, usize)>)
    requires
        at <= chars.len(),
    ensures
        read(parsed, at) == macro_name_at(chars@, at as nat),
        advanced(parsed, at, chars.len()),
{
    match parse_word(chars, at, CharClass::Upper) {
        Some((name, end)) => Some((LexicalExpression::MacroName(name), end)),
        None => None,
    }
}

fn parse_value_name(chars: &Vec<char>, at: usize) -> (parsed: Option<(LexicalExpression, usize)>)
    requires
        at <= chars.len(),
    ensures
        read(parsed, at) == value_name_at(chars@, at as nat),
        advanced(parsed, at, chars.len()),
{
    match parse_word(chars, at, CharClass::Lower) {
        Some((name, end)) => Some((LexicalExpression::Symbol(name), end)),
        None => None,
    }
}

fn parse_keyword(chars: &Vec<char>, at: usize) -> (parsed: Option<(LexicalExpression, usize)>)
    requires
        at <= chars.len(),
    ensures
        read(parsed, at) == keyword_at(chars@, at as nat),
        advanced(parsed, at, chars.len()),
{
    if is_here(chars, at, ':') {
        match parse_word(chars, at + 1, CharClass::Lower) {
            Some((name, end)) => Some((LexicalExpression::Keyword(name), end)),
            None => None,
        }
    } else {
        None
    }
}

fn parse_hole(chars: &Vec<char>, at: usize) -> (parsed: Option<(LexicalExpression, usize)>)
    requires
        at <= chars.len(),
    ensures
        read(parsed, at) == hole_at(chars@, at as nat),
        advanced(parsed, at, chars.len()),
{
    if is_here(chars, at, '_') {
        Some((LexicalExpression::Hole, at + 1))
    } else {
        None
    }
}

fn parse_number(chars: &Vec<char>, at: usize) -> (parsed: Option<(LexicalExpression, usize)>)
    requires
        at <= chars.len(),
    ensures
        read(parsed, at) == number_at(chars@, at as nat),
        advanced(parsed, at, chars.len()),
{
    let end = skip(chars, at, CharClass::Digit);
    if end == at {
        return None;
    }
    let ghost digits = slice(chars@, at as nat, (end - at) as nat);
    proof {
        assert forall|i: int| 0 <= i < digits.len() implies '0' <= #[trigger] digits[i]
            <= '9' by {
            lemma_run_accepts(chars@, at as nat, CharClass::Digit, (at + i) as nat);
        }
    }
    let mut value: u128 = 0;
    let mut i = at;
    proof {
        assert(digits.take(0).len() == 0);
    }
    while i < end
        invariant
            at <= i <= end <= chars.len(),
            at < end,
            end - at == run(chars@, at as nat, CharClass::Digit),
            digits == slice(chars@, at as nat, (end - at) as nat),
            forall|k: int| 0 <= k < digits.len() ==> '0' <= #[trigger] digits[k] <= '9',
            value == decimal_value(digits.take(i - at)),
        decreases end - i,
    {
        let ghost longer = digits.take(i - at + 1);
        proof {
            assert(longer.drop_last() =~= digits.take(i - at));
            assert(longer.last() == chars[i as int]);
            assert('0' <= digits[i - at] <= '9');
            lemma_decimal_value_grows(digits, i - at + 1);
        }
        let digit = (chars[i] as u32 - '0' as u32) as u128;
        match value.checked_mul(10) {
            Some(tenfold) => match tenfold.checked_add(digit) {
                Some(next) => {
                    value = next;
                },
                None => {
                    return None;
                },
            },
            None => {
                return None;
            },
        }
        i += 1;
    }
    proof {
        assert(digits.take(end - at) =~= digits);
    }
    Some((LexicalExpression::Number(value), end))
}

fn parse_string(chars: &Vec<char>, at: usize) -> (parsed: Option<(LexicalExpression, usize)>)
    requires
        at <= chars.len(),
    ensures
        read(parsed, at) == string_at(chars@, at as nat),
        advanced(parsed, at, chars.len()),
{
    if is_here(chars, at, '"') {
        let end = skip(chars, at + 1, CharClass::Not('"'));
        if is_here(chars, end, '"') {
            return Some((LexicalExpression::String(text_between(chars, at + 1, end)), end + 1));
        }
    }
    None
}

fn parse_bracketed(chars: &Vec<char>, at: usize, open: char, close: char) -> (parsed: Option<
    (Vec<LexicalExpression>, usize),
>)
    requires
        at <= chars.len(),
    ensures
        match parsed {
            Some((items, end)) => at < end <= chars.len() && bracketed_at(
                chars@,
                at as nat,
                open,
                close,
            ) == Some((syntaxes(items@), (end - at) as nat)),
            None => bracketed_at(chars@, at as nat, open, close) is None,
        },
    decreases chars.len() - at, 0nat,
{
    if is_here(chars, at, open) {
        let (items, end) = parse_forms(chars, at + 1);
        if is_here(chars, end, close) {
            return Some((items, end + 1));
        }
    }
    None
}

fn parse_list(chars: &Vec<char>, at: usize) -> (parsed: Option<(LexicalExpression, usize)>)
    requires
        at <= chars.len(),
    ensures
        read(parsed, at) == list_at(chars@, at as nat),
        advanced(parsed, at, chars.len()),
    decreases chars.len() - at, 1nat,
{
    match parse_bracketed(chars, at, '[', ']') {
        Some((items, end)) => Some((LexicalExpression::List(items), end)),
        None => None,
    }
}

fn parse_tag(chars: &Vec<char>, at: usize) -> (parsed: Option<(LexicalExpression, usize)>)
    requires
        at <= chars.len(),
    ensures
        read(parsed, at) == tag_at(chars@, at as nat),
        advanced(parsed, at, chars.len()),
    decreases chars.len() - at, 2nat,
{
    let parsed = parse_value_name(chars, at);
    if parsed.is_some() {
        return parsed;
    }
    let parsed = parse_keyword(chars, at);
    if parsed.is_some() {
        return parsed;
    }
    let parsed = parse_list(chars, at);
    if parsed.is_some() {
        return parsed;
    }
    let parsed = parse_macro_name(chars, at);
    if parsed.is_some() {
        return parsed;
    }
    parse_string(chars, at)
}

fn parse_tagged_tuple(chars: &Vec<char>, at: usize) -> (parsed: Option<(LexicalExpression, usize)>)
    requires
        at <= chars.len(),
    ensures
        read(parsed, at) == tagged_tuple_at(chars@, at as nat),
        advanced(parsed, at, chars.len()),
    decreases chars.len() - at, 3nat,
{
    match parse_tag(chars, at) {
        Some((tag, behind)) => match parse_bracketed(chars, behind, '(', ')') {
            Some((arguments, end)) => Some(
                (LexicalExpression::TaggedTuple(Box::new(tag), arguments), end),
            ),
            None => None,
        },
        None => None,
    }
}

fn parse_form(chars: &Vec<char>, at: usize) -> (parsed: Option<(LexicalExpression, usize)>)
    requires
        at <= chars.len(),
    ensures
        read(parsed, at) == form_at(chars@, at as nat),
        advanced(parsed, at, chars.len()),
    decreases chars.len() - at, 4nat,
{
    let parsed = parse_comment(chars, at);
    if parsed.is_some() {
        return parsed;
    }
    let parsed = parse_tagged_tuple(chars, at);
    if parsed.is_some() {
        return parsed;
    }
    let parsed = parse_keyword(chars, at);
    if parsed.is_some() {
        return parsed;
    }
    let parsed = parse_hole(chars, at);
    if parsed.is_some() {
        return parsed;
    }
    let parsed = parse_list(chars, at);
    if parsed.is_some() {
        return parsed;
    }
    let parsed = parse_macro_name(chars, at);
    if parsed.is_some() {
        return parsed;
    }
    let parsed = parse_number(chars, at);
    if parsed.is_some() {
        return parsed;
    }
    let parsed = parse_string(chars, at);
    if parsed.is_some() {
        return parsed;
    }
    parse_value_name(chars, at)
}

fn parse_expression(chars: &Vec<char>, start: usize) -> (parsed: Option<(LexicalExpression, usize)>)
    requires
        start <= chars.len(),
    ensures
        read(parsed, start) == expression_at(chars@, start as nat),
        advanced(parsed, start, chars.len()),
    decreases chars.len() - start, 5nat,
{
    let at = skip(chars, start, CharClass::Blank);
    match parse_form(chars, at) {
        Some((form, behind)) => Some((form, skip(chars, behind, CharClass::Blank))),
        None => None,
    }
}

fn parse_forms(chars: &Vec<char>, start: usize) -> (parsed: (Vec<LexicalExpression>, usize))
    requires
        start <= chars.len(),
    ensures
        forms_at(chars@, start as nat) == (syntaxes(parsed.0@), (parsed.1 - start) as nat),
        start <= parsed.1 <= chars.len(),
    decreases chars.len() - start, 6nat,
{
    let mut forms: Vec<LexicalExpression> = Vec::new();
    let mut position = start;
    proof {
        assert(syntaxes(forms@) =~= Seq::empty());
    }
    while position < chars.len()
        invariant
            start <= position <= chars.len(),
            forms_at(chars@, start as nat) == (
                syntaxes(forms@) + forms_at(chars@, position as nat).0,
                (position - start + forms_at(chars@, position as nat).1) as nat,
            ),
        ensures
            start <= position <= chars.len(),
            forms_at(chars@, start as nat) == (syntaxes(forms@), (position - start) as nat),
        decreases chars.len() - position,
    {
        match parse_expression(chars, position) {
            Some((form, end)) => {
                proof {
                    lemma_syntaxes_push(forms@, form);
                    let others = forms_at(chars@, end as nat).0;
                    assert(syntaxes(forms@).push(form@) + others =~= syntaxes(forms@) + (
                    seq![form@] + others));
                }
                forms.push(form);
                position = end;
            },
            None => {
                proof {
                    assert(syntaxes(forms@) + Seq::<Syntax>::empty() =~= syntaxes(forms@));
                }
                break ;
            },
        }
    }
    proof {
        assert(syntaxes(forms@) + Seq::<Syntax>::empty() =~= syntaxes(forms@));
    }
    (forms, position)
}

/// Whether what a parser returned for a whole input is what the grammar
/// says: the form that it read, and the input behind it.
pub open spec fn agrees(
    parsed: Option<(String, LexicalExpression)>,
    input: Seq<char>,
    expected: Option<(Syntax, nat)>,
) -> bool {
    match parsed {
        Some((left, form)) => expected == Some((form@, (input.len() - left@.len()) as nat))
            && left@.len() <= input.len() && left@ == rest(
            input,
            (input.len() - left@.len()) as nat,
        ),
        None => expected is None,
    }
}

fn finish(chars: &Vec<char>, parsed: Option<(LexicalExpression, usize)>) -> (finished: Option<
    (String, LexicalExpression),
>)
    requires
        parsed matches Some((_, end)) ==> end <= chars.len(),
    ensures
        agrees(finished, chars@, read(parsed, 0)),
{
    match parsed {
        Some((form, end)) => {
            proof {
                assert(chars@.subrange(end as int, chars.len() as int) =~= rest(
                    chars@,
                    end as nat,
                ));
            }
            Some((text_between(chars, end, chars.len()), form))
        },
        None => None,
    }
}

/// Reads a comment at the start of the input.
pub fn comment(input: &str) -> (parsed: Option<(String, LexicalExpression)>)
    ensures
        agrees(parsed, input@, comment_at(input@, 0)),
{
    let chars = characters(input);
    finish(&chars, parse_comment(&chars, 0))
}

/// Reads a macro name at the start of the input.
pub fn macro_name(input: &str) -> (parsed: Option<(String, LexicalExpression)>)
    ensures
        agrees(parsed, input@, macro_name_at(input@, 0)),
{
    let chars = characters(input);
    finish(&chars, parse_macro_name(&chars, 0))
}

/// Reads a value name at the start of the input.
pub fn value_name(input: &str) -> (parsed: Option<(String, LexicalExpression)>)
    ensures
        agrees(parsed, input@, value_name_at(input@, 0)),
{
    let chars = characters(input);
    finish(&chars, parse_value_name(&chars, 0))
}

/// Reads a tagged tuple at the start of the input.
pub fn tagged_tuple(input: &str) -> (parsed: Option<(String, LexicalExpression)>)
    ensures
        agrees(parsed, input@, tagged_tuple_at(input@, 0)),
{
    let chars = characters(input);
    finish(&chars, parse_tagged_tuple(&chars, 0))
}

/// Reads a list at the start of the input.
pub fn list(input: &str) -> (parsed: Option<(String, LexicalExpression)>)
    ensures
        agrees(parsed, input@, list_at(input@, 0)),
{
    let chars = characters(input);
    finish(&chars, parse_list(&chars, 0))
}

/// Reads a number at the start of the input.
pub fn number(input: &str) -> (parsed: Option<(String, LexicalExpression)>)
    ensures
        agrees(parsed, input@, number_at(input@, 0)),
{
    let chars = characters(input);
    finish(&chars, parse_number(&chars, 0))
}

/// Reads a string at the start of the input.
pub fn string(input: &str) -> (parsed: Option<(String, LexicalExpression)>)
    ensures
        agrees(parsed, input@, string_at(input@, 0)),
{
    let chars = characters(input);
    finish(&chars, parse_string(&chars, 0))
}

/// Reads a keyword at the start of the input.
pub fn keyword(input: &str) -> (parsed: Option<(String, LexicalExpression)>)
    ensures
        agrees(parsed, input@, keyword_at(input@, 0)),
{
    let chars = characters(input);
    finish(&chars, parse_keyword(&chars, 0))
}

/// Reads the hole at the start of the input.
pub fn hole(input: &str) -> (parsed: Option<(String, LexicalExpression)>)
    ensures
        agrees(parsed, input@, hole_at(input@, 0)),
{
    let chars = characters(input);
    finish(&chars, parse_hole(&chars, 0))
}

/// Reads a form at the start of the input, with the blanks around it.
pub fn expression(input: &str) -> (parsed: Option<(String, LexicalExpression)>)
    ensures
        agrees(parsed, input@, expression_at(input@, 0)),
{
    let chars = characters(input);
    finish(&chars, parse_expression(&chars, 0))
}

/// Reads the forms that the input starts with, and returns them with the
/// input that is left behind them. What is left is empty where the whole
/// input is a program.
pub fn program(input: &str) -> (parsed: (String, Vec<LexicalExpression>))
    ensures
        syntaxes(parsed.1@) == forms_at(input@, 0).0,
        parsed.0@ == rest(input@, forms_at(input@, 0).1),
{
    let chars = characters(input);
    let (forms, end) = parse_forms(&chars, 0);
    proof {
        assert(chars@.subrange(end as int, chars.len() as int) =~= rest(chars@, end as nat));
    }
    (text_between(&chars, end, chars.len()), forms)
}

/// The text of a digit is that digit, as one character.
proof fn lemma_digit_text(digit: int)
    requires
        0 <= digit <= 9,
    ensures
        digit_text(digit).len() == 1,
        digit_text(digit)[0] as int == '0' as int + digit,
{
    reveal_strlit("0");
    reveal_strlit("1");
    reveal_strlit("2");
    reveal_strlit("3");
    reveal_strlit("4");
    reveal_strlit("5");
    reveal_strlit("6");
    reveal_strlit("7");
    reveal_strlit("8");
    reveal_strlit("9");
}

/// A number in decimal is made of digits, has at least one, and denotes the
/// number.
proof fn lemma_decimal_denotes(number: nat)
    ensures
        decimal(number).len() > 0,
        forall|i: int|
            0 <= i < decimal(number).len() ==> CharClass::Digit.accepts(
                #[trigger] decimal(number)[i],
            ),
        decimal_value(decimal(number)) == number,
    decreases number,
{
    lemma_digit_text((number % 10) as int);
    if number < 10 {
        assert(decimal(number).drop_last().len() == 0);
        assert(decimal_value(decimal(number).drop_last()) == 0);
    } else {
        lemma_decimal_denotes(number / 10);
        assert(decimal(number).drop_last() =~= decimal(number / 10));
    }
}

/// A text of nothing but characters of one kind is one run of that kind.
proof fn lemma_run_of_all(text: Seq<char>, start: nat, class: CharClass)
    requires
        start <= text.len(),
        forall|i: int| 0 <= i < text.len() ==> class.accepts(#[trigger] text[i]),
    ensures
        run(text, start, class) == text.len() - start,
    decreases text.len() - start,
{
    if start < text.len() {
        lemma_run_of_all(text, start + 1, class);
    }
}

/// What is printed of a number reads back as that number: the decimal form
/// that `print` gives a number is a number to the parser, as long as it is,
/// and denotes the same number.
pub proof fn lemma_number_reads_back(number: u128)
    ensures
        number_at(decimal(number as nat), 0) == Some(
            (Syntax::Number(number), decimal(number as nat).len()),
        ),
{
    let text = decimal(number as nat);
    lemma_decimal_denotes(number as nat);
    lemma_run_of_all(text, 0, CharClass::Digit);
    assert(slice(text, 0, text.len()) =~= text);
}

} // verus!

//! The characters and words that the grammar is made of.
//!
//! Parsers work on a text as a vector of characters and on positions in it.
//! What a parser accepts is stated by a function on the text's characters
//! that returns what was read and how many characters it took.

use vstd::prelude::*;

verus! {

/// Whether `char::is_uppercase` holds of the character.
pub uninterp spec fn uppercase(character: char) -> bool;

/// Whether `char::is_lowercase` holds of the character.
pub uninterp spec fn lowercase(character: char) -> bool;

/// Whether `char::is_alphanumeric` holds of the character.
pub uninterp spec fn alphanumeric(character: char) -> bool;

/// `char::is_uppercase`: whether the character has the Unicode property
/// Uppercase. Nothing is claimed of which characters have it.
#[verifier::external_body]
fn is_uppercase(character: char) -> (holds: bool)
    ensures
        holds == uppercase(character),
{
    character.is_uppercase()
}

/// `char::is_lowercase`: whether the character has the Unicode property
/// Lowercase. Nothing is claimed of which characters have it.
#[verifier::external_body]
fn is_lowercase(character: char) -> (holds: bool)
    ensures
        holds == lowercase(character),
{
    character.is_lowercase()
}

/// `char::is_alphanumeric`: whether the character is a letter or a number in
/// Unicode's sense. Nothing is claimed of which characters are.
#[verifier::external_body]
fn is_alphanumeric(character: char) -> (holds: bool)
    ensures
        holds == alphanumeric(character),
{
    character.is_alphanumeric()
}

/// `String::push`: appends the character to the end of the string.
#[verifier::external_body]
fn push_char(text: &mut String, character: char)
    ensures
        final(text)@ == old(text)@.push(character),
{
    text.push(character)
}

/// The kinds of characters that the grammar tells apart.
#[derive(PartialEq, Eq, Structural, Debug, Clone, Copy)]
pub enum CharClass {
    /// A character that `char::is_uppercase` holds of.
    Upper,
    /// A character that `char::is_lowercase` holds of.
    Lower,
    /// A character that may stand in a name behind its first: one that
    /// `char::is_alphanumeric` holds of, or one of `: / @ - . < >`.
    Name,
    /// A character that separates forms: a space, a tab, a carriage return or
    /// a line feed.
    Blank,
    /// A decimal digit.
    Digit,
    /// Any character but the given one.
    Not(char),
}

impl CharClass {
    /// Whether the character is of this kind.
    pub open spec fn accepts(self, character: char) -> bool {
        match self {
            CharClass::Upper => uppercase(character),
            CharClass::Lower => lowercase(character),
            CharClass::Name => {
                ||| alphanumeric(character)
                ||| character == ':'
                ||| character == '/'
                ||| character == '@'
                ||| character == '-'
                ||| character == '.'
                ||| character == '<'
                ||| character == '>'
            },
            CharClass::Blank => character == ' ' || character == '\t' || character == '\r'
                || character == '\n',
            CharClass::Digit => '0' <= character <= '9',
            CharClass::Not(stop) => character != stop,
        }
    }

    /// Whether the character is of this kind.
    pub fn holds(self, character: char) -> (holds: bool)
        ensures
            holds == self.accepts(character),
    {
        match self {
            CharClass::Upper => is_uppercase(character),
            CharClass::Lower => is_lowercase(character),
            CharClass::Name => is_alphanumeric(character) || character == ':' || character == '/'
                || character == '@' || character == '-' || character == '.' || character == '<'
                || character == '>',
            CharClass::Blank => character == ' ' || character == '\t' || character == '\r'
                || character == '\n',
            CharClass::Digit => '0' <= character && character <= '9',
            CharClass::Not(stop) => character != stop,
        }
    }
}

/// How many characters from `start` on are of the given kind, up to the
/// first that is not.
pub open spec fn run(text: Seq<char>, start: nat, class: CharClass) -> nat
    decreases text.len() - start,
{
    if start < text.len() && class.accepts(text[start as int]) {
        1 + run(text, start + 1, class)
    } else {
        0
    }
}

/// A word at `start`: a first character of the given kind and the name
/// characters that follow it. The result is the length of the word.
pub open spec fn word(text: Seq<char>, start: nat, first: CharClass) -> Option<nat> {
    if start < text.len() && first.accepts(text[start as int]) {
        Some(1 + run(text, start + 1, CharClass::Name))
    } else {
        None
    }
}

/// What is left of the text behind the first `taken` characters.
pub open spec fn rest(text: Seq<char>, taken: nat) -> Seq<char> {
    text.skip(taken as int)
}

/// The characters of a text.
pub fn characters(text: &str) -> (chars: Vec<char>)
    ensures
        chars@ == text@,
{
    let mut chars: Vec<char> = Vec::new();
    for character in it: text.chars()
        invariant
            chars@ == it.seq().take(it.index() as int),
            it.seq() == text@,
    {
        chars.push(character);
    }
    chars
}

/// The text between two positions.
pub fn text_between(chars: &Vec<char>, from: usize, to: usize) -> (text: String)
    requires
        from <= to <= chars.len(),
    ensures
        text@ == chars@.subrange(from as int, to as int),
{
    let mut text = String::new();
    let mut i = from;
    while i < to
        invariant
            from <= i <= to <= chars.len(),
            text@ == chars@.subrange(from as int, i as int),
        decreases to - i,
    {
        push_char(&mut text, chars[i]);
        proof {
            assert(chars@.subrange(from as int, i as int + 1) =~= chars@.subrange(
                from as int,
                i as int,
            ).push(chars[i as int]));
        }
        i += 1;
    }
    text
}

/// The position behind the characters of the given kind that start at
/// `start`.
pub fn skip(chars: &Vec<char>, start: usize, class: CharClass) -> (end: usize)
    requires
        start <= chars.len(),
    ensures
        end == start + run(chars@, start as nat, class),
        end <= chars.len(),
{
    let mut end = start;
    while end < chars.len() && class.holds(chars[end])
        invariant
            start <= end <= chars.len(),
            start + run(chars@, start as nat, class) == end + run(chars@, end as nat, class),
        decreases chars.len() - end,
    {
        end += 1;
    }
    end
}

/// The position behind the word that starts at `start`, if there is one.
pub fn word_end(chars: &Vec<char>, start: usize, first: CharClass) -> (end: Option<usize>)
    requires
        start <= chars.len(),
    ensures
        match end {
            Some(end) => start < end <= chars.len() && word(chars@, start as nat, first) == Some(
                (end - start) as nat,
            ),
            None => word(chars@, start as nat, first) is None,
        },
{
    if start < chars.len() && first.holds(chars[start]) {
        Some(skip(chars, start + 1, CharClass::Name))
    } else {
        None
    }
}

/// One uppercase character, and what follows it.
pub fn uppercase_char(input: &str) -> (parsed: Option<(String, char)>)
    ensures
        match parsed {
            Some((left, character)) => input@.len() > 0 && uppercase(input@[0]) && character
                == input@[0] && left@ == rest(input@, 1),
            None => !(input@.len() > 0 && uppercase(input@[0])),
        },
{
    let chars = characters(input);
    if chars.len() > 0 && is_uppercase(chars[0]) {
        proof {
            assert(chars@.subrange(1, chars.len() as int) =~= rest(input@, 1));
        }
        Some((text_between(&chars, 1, chars.len()), chars[0]))
    } else {
        None
    }
}

/// One lowercase character, and what follows it.
pub fn lowercase_char(input: &str) -> (parsed: Option<(String, char)>)
    ensures
        match parsed {
            Some((left, character)) => input@.len() > 0 && lowercase(input@[0]) && character
                == input@[0] && left@ == rest(input@, 1),
            None => !(input@.len() > 0 && lowercase(input@[0])),
        },
{
    let chars = characters(input);
    if chars.len() > 0 && is_lowercase(chars[0]) {
        proof {
            assert(chars@.subrange(1, chars.len() as int) =~= rest(input@, 1));
        }
        Some((text_between(&chars, 1, chars.len()), chars[0]))
    } else {
        None
    }
}

/// The name characters that the input starts with, which may be none, and
/// what follows them.
pub fn nana_name0(input: &str) -> (parsed: (String, String))
    ensures
        parsed.1@ == input@.take(run(input@, 0, CharClass::Name) as int),
        parsed.0@ == rest(input@, run(input@, 0, CharClass::Name)),
{
    let chars = characters(input);
    let end = skip(&chars, 0, CharClass::Name);
    proof {
        assert(chars@.subrange(0, end as int) =~= input@.take(end as int));
        assert(chars@.subrange(end as int, chars.len() as int) =~= rest(input@, end as nat));
    }
    (text_between(&chars, end, chars.len()), text_between(&chars, 0, end))
}

/// The word of the given kind that the input starts with, and what follows
/// it.
pub fn leading_word(input: &str, first: CharClass) -> (parsed: Option<(String, String)>)
    ensures
        match parsed {
            Some((left, name)) => {
                &&& word(input@, 0, first) matches Some(length)
                &&& name@ == input@.take(length as int)
                &&& left@ == rest(input@, length)
            },
            None => word(input@, 0, first) is None,
        },
{
    let chars = characters(input);
    match word_end(&chars, 0, first) {
        Some(end) => {
            proof {
                assert(chars@.subrange(0, end as int) =~= input@.take(end as int));
                assert(chars@.subrange(end as int, chars.len() as int) =~= rest(
                    input@,
                    end as nat,
                ));
            }
            Some((text_between(&chars, end, chars.len()), text_between(&chars, 0, end)))
        },
        None => None,
    }
}

/// A word that starts with an uppercase character, and what follows it.
pub fn titlecase_word(input: &str) -> (parsed: Option<(String, String)>)
    ensures
        match parsed {
            Some((left, name)) => {
                &&& word(input@, 0, CharClass::Upper) matches Some(length)
                &&& name@ == input@.take(length as int)
                &&& left@ == rest(input@, length)
            },
            None => word(input@, 0, CharClass::Upper) is None,
        },
{
    leading_word(input, CharClass::Upper)
}

/// A word that starts with a lowercase character, and what follows it.
pub fn lower_start_word(input: &str) -> (parsed: Option<(String, String)>)
    ensures
        match parsed {
            Some((left, name)) => {
                &&& word(input@, 0, CharClass::Lower) matches Some(length)
                &&& name@ == input@.take(length as int)
                &&& left@ == rest(input@, length)
            },
            None => word(input@, 0, CharClass::Lower) is None,
        },
{
    leading_word(input, CharClass::Lower)
}

} // verus!

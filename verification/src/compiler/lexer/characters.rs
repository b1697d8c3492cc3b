//! Character classes. Every character belongs to exactly one class, and the
//! scanner decides what to do with a character by its class alone.

use vstd::prelude::*;
use crate::compiler::lexer::TokenType;

verus! {

/// Whether a character has the Unicode property `Alphabetic`, as the standard
/// library's tables have it.
pub uninterp spec fn unicode_alphabetic(c: char) -> bool;

/// Whether a character has the Unicode property `White_Space`, as the standard
/// library's tables have it.
pub uninterp spec fn unicode_white_space(c: char) -> bool;

/// Calls `char::is_alphabetic`. Nothing is proved of it: the contract gives its
/// answer the name `unicode_alphabetic`, and so claims only that the answer
/// depends on the character alone.
#[verifier::external_body]
fn is_alphabetic(c: char) -> (b: bool)
    ensures
        b == unicode_alphabetic(c),
{
    c.is_alphabetic()
}

/// Calls `char::is_whitespace`. Nothing is proved of it: the contract gives its
/// answer the name `unicode_white_space`, and so claims only that the answer
/// depends on the character alone.
#[verifier::external_body]
fn is_whitespace(c: char) -> (b: bool)
    ensures
        b == unicode_white_space(c),
{
    c.is_whitespace()
}

/// `String::push` appends the character to the end of the string. Nothing is
/// proved of it: this is what its documentation says.
pub assume_specification[ String::push ](s: &mut String, ch: char)
    ensures
        final(s)@ == old(s)@.push(ch),
;

/// The class of a character.
#[derive(Debug, Clone, Copy, PartialEq, Eq, Structural)]
pub enum CharClass {
    /// Separates lexemes and is otherwise skipped.
    Whitespace,
    /// May stand in an identifier or a keyword.
    Letter,
    /// May stand in a numeric literal.
    Digit,
    /// `/`: two of them open a line comment.
    Slash,
    /// A lexeme by itself.
    Punctuation,
    /// Stands in no lexeme.
    Unrecognized,
}

/// The code points below 128.
pub open spec fn is_ascii(c: char) -> bool {
    (c as u32) < 128
}

/// The token that a punctuation character forms by itself.
pub open spec fn punctuation_type(c: char) -> Option<TokenType> {
    if c == ';' {
        Some(TokenType::Semicolon)
    } else if c == '=' {
        Some(TokenType::Assignment)
    } else if c == '(' {
        Some(TokenType::OpenParen)
    } else if c == ')' {
        Some(TokenType::CloseParen)
    } else if c == '{' {
        Some(TokenType::OpenBrace)
    } else if c == '}' {
        Some(TokenType::CloseBrace)
    } else if c == ',' {
        Some(TokenType::Comma)
    } else {
        None
    }
}

/// The class of an ASCII character: blank, tab, line feed, vertical tab, form
/// feed and carriage return are whitespace, the 52 letters are letters, the
/// ten digits are digits.
pub open spec fn ascii_class(c: char) -> CharClass {
    if c == ' ' || ('\t' <= c && c <= '\r') {
        CharClass::Whitespace
    } else if ('a' <= c && c <= 'z') || ('A' <= c && c <= 'Z') {
        CharClass::Letter
    } else if '0' <= c && c <= '9' {
        CharClass::Digit
    } else if c == '/' {
        CharClass::Slash
    } else if punctuation_type(c) is Some {
        CharClass::Punctuation
    } else {
        CharClass::Unrecognized
    }
}

/// The class of any character. Beyond ASCII a character is a letter if
/// Unicode calls it alphabetic, else whitespace if Unicode calls it white
/// space, else unrecognized.
pub open spec fn char_class(c: char) -> CharClass {
    if is_ascii(c) {
        ascii_class(c)
    } else if unicode_alphabetic(c) {
        CharClass::Letter
    } else if unicode_white_space(c) {
        CharClass::Whitespace
    } else {
        CharClass::Unrecognized
    }
}

/// The decimal value of a digit character.
pub open spec fn digit_value(c: char) -> nat
    recommends
        char_class(c) == CharClass::Digit,
{
    (c as u32 - '0' as u32) as nat
}

/// Finds the token that a punctuation character forms.
pub fn punctuation(c: char) -> (kind: Option<TokenType>)
    ensures
        kind == punctuation_type(c),
{
    if c == ';' {
        Some(TokenType::Semicolon)
    } else if c == '=' {
        Some(TokenType::Assignment)
    } else if c == '(' {
        Some(TokenType::OpenParen)
    } else if c == ')' {
        Some(TokenType::CloseParen)
    } else if c == '{' {
        Some(TokenType::OpenBrace)
    } else if c == '}' {
        Some(TokenType::CloseBrace)
    } else if c == ',' {
        Some(TokenType::Comma)
    } else {
        None
    }
}

/// Finds the class of a character.
pub fn classify(c: char) -> (class: CharClass)
    ensures
        class == char_class(c),
{
    if (c as u32) < 128 {
        if c == ' ' || ('\t' <= c && c <= '\r') {
            CharClass::Whitespace
        } else if ('a' <= c && c <= 'z') || ('A' <= c && c <= 'Z') {
            CharClass::Letter
        } else if '0' <= c && c <= '9' {
            CharClass::Digit
        } else if c == '/' {
            CharClass::Slash
        } else if punctuation(c).is_some() {
            CharClass::Punctuation
        } else {
            CharClass::Unrecognized
        }
    } else if is_alphabetic(c) {
        CharClass::Letter
    } else if is_whitespace(c) {
        CharClass::Whitespace
    } else {
        CharClass::Unrecognized
    }
}

/// The value of a decimal digit, and nothing for any other character.
pub fn digit(c: char) -> (d: Option<u8>)
    ensures
        d is Some <==> char_class(c) == CharClass::Digit,
        d matches Some(v) ==> v as nat == digit_value(c) && v < 10,
{
    if '0' <= c && c <= '9' {
        Some(((c as u32) - ('0' as u32)) as u8)
    } else {
        None
    }
}

} // verus!

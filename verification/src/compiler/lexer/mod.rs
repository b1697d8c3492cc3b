//! The scanner: from characters to tokens.

use vstd::prelude::*;
use crate::compiler::lexer::characters::{classify, punctuation, CharClass};
use crate::compiler::lexer::cursor::{position_at, Cursor};
use crate::compiler::lexer::comments::comment;
use crate::compiler::lexer::grammar::{
    all_scanned, error_at, event_keyword, expect_at, in_reading_order, is_blank, is_keyword,
    lemma_comment_advances, lemma_lexeme_bounds, lemma_trivia_end_bounds, let_keyword, lexeme_at,
    match_end, number_at, punctuation_at, run_end, scan_from, scan_result, token_at, tokens_at,
    trivia_end, word_at, Failure, Span,
};
use crate::compiler::lexer::laws::{
    lemma_blank_has_no_tokens, lemma_positions_rise, lemma_tokens_are_scanned,
};

pub mod characters;
pub mod comments;
pub mod cursor;
pub mod grammar;
pub mod laws;
pub mod reading;
pub mod shifting;

verus! {

/// The tag of a token.
#[derive(Debug, Clone, Copy, PartialEq, Eq, Structural)]
pub enum TokenType {
    /// A run of letters that is no keyword.
    Identifier,
    /// `event` or `let`.
    Keyword,
    /// `;`
    Semicolon,
    /// `=`
    Assignment,
    /// A run of decimal digits.
    NumericLiteral,
    /// `(`
    OpenParen,
    /// `)`
    CloseParen,
    /// `{`
    OpenBrace,
    /// `}`
    CloseBrace,
    /// `,`
    Comma,
    /// The mark of the end of the input. The scanner gives no such token:
    /// where a token buffer ends, the input ends.
    EndOfInput,
}

/// Where a token or an error lies in the source text. Lines and columns are
/// counted from 1, and a line feed ends a line. A count above `usize::MAX`,
/// which only the end of a text of `usize::MAX` characters can have, is
/// given as `usize::MAX`.
#[derive(Debug, Clone, Copy, PartialEq, Eq, Structural)]
pub struct TokenMetadata {
    pub line_number: usize,
    pub char_number: usize,
}

/// The text of a lexeme.
pub type Lexeme = String;

/// A lexeme with its tag and its place in the source text.
#[derive(Debug, PartialEq, Eq)]
pub struct Token {
    /// The characters matched.
    pub lexeme: Lexeme,
    /// The tag; only a lexeme that is read and thrown away has none.
    pub token_type: Option<TokenType>,
    /// The position of the first character of the lexeme.
    pub metadata: TokenMetadata,
}

/// A token as a mathematical value.
pub struct TokenView {
    pub lexeme: Seq<char>,
    pub token_type: Option<TokenType>,
    pub metadata: TokenMetadata,
}

impl Clone for Token {
    fn clone(&self) -> (copy: Self)
        ensures
            copy == *self,
    {
        Token {
            lexeme: self.lexeme.clone(),
            token_type: self.token_type,
            metadata: self.metadata,
        }
    }
}

impl View for Token {
    type V = TokenView;

    open spec fn view(&self) -> TokenView {
        TokenView { lexeme: self.lexeme@, token_type: self.token_type, metadata: self.metadata }
    }
}

/// The tokens of a buffer as mathematical values.
pub open spec fn token_views(tokens: Seq<Token>) -> Seq<TokenView> {
    tokens.map_values(|token: Token| token@)
}

/// Why the scanner rejects a text.
#[derive(Debug, Clone, Copy, PartialEq, Eq, Structural)]
pub enum LexerError {
    /// The text ends inside a lexeme; the position is that of the end.
    UnexpectedEndOfInput(TokenMetadata),
    /// No lexeme begins with this character at this position.
    UnrecognizedCharacter(char, TokenMetadata),
}

/// Reads `lexeme` at the cursor and steps over it. Gives the token made of
/// it, with the tag handed in and the position where it began.
///
/// Where the lexeme does not stand at the cursor in full, the cursor stays
/// where it is: where the text ends first, the error is the end of input,
/// and else the character at the cursor is not recognized.
pub fn expect(cursor: &mut Cursor, lexeme: &str, token_type: Option<TokenType>) -> (result: Result<
    Token,
    LexerError,
>)
    ensures
        final(cursor).source() == old(cursor).source(),
        match expect_at(old(cursor).source(), old(cursor).index(), lexeme@) {
            Ok(end) => final(cursor).index() == end && result is Ok && result->Ok_0@ == (TokenView {
                lexeme: lexeme@,
                token_type,
                metadata: position_at(old(cursor).source(), old(cursor).index()),
            }),
            Err(failure) => final(cursor).index() == old(cursor).index() && result == Err::<
                Token,
                LexerError,
            >(error_at(old(cursor).source(), failure)),
        },
{
    let start = cursor.position();
    let mut matched: usize = 0;
    proof {
        use_type_invariant(&*cursor);
        cursor.lemma_bounds();
    }
    for c in it: lexeme.chars()
        invariant
            it.seq() == lexeme@,
            matched == it.index(),
            *cursor == *old(cursor),
            start == position_at(cursor.source(), cursor.index()),
            match_end(cursor.source(), cursor.index(), lexeme@, 0) == match_end(
                cursor.source(),
                cursor.index(),
                lexeme@,
                matched as int,
            ),
            cursor.index() + matched <= cursor.source().len() <= usize::MAX,
    {
        match cursor.peek_ahead(matched) {
            None => {
                return Err(LexerError::UnexpectedEndOfInput(cursor.end_position()));
            },
            Some(found) => {
                if found != c {
                    return Err(LexerError::UnrecognizedCharacter(cursor.peek().unwrap(), start));
                }
                matched = matched + 1;
            },
        }
    }
    cursor.advance_by(matched);
    Ok(Token { lexeme: lexeme.to_owned(), token_type, metadata: start })
}

/// Steps over the whole run of characters of one class that begins at the
/// cursor, and gives the characters stepped over.
fn take_run(cursor: &mut Cursor, class: CharClass) -> (text: String)
    ensures
        final(cursor).source() == old(cursor).source(),
        final(cursor).index() == run_end(old(cursor).source(), old(cursor).index(), class),
        text@ == old(cursor).source().subrange(old(cursor).index(), final(cursor).index()),
{
    let mut text = String::new();
    let ghost source = cursor.source();
    let ghost begin = cursor.index();
    proof {
        use_type_invariant(&*cursor);
        cursor.lemma_bounds();
    }
    loop
        invariant
            source == old(cursor).source(),
            begin == old(cursor).index(),
            cursor.source() == source,
            0 <= begin <= cursor.index() <= source.len(),
            run_end(source, begin, class) == run_end(source, cursor.index(), class),
            text@ == source.subrange(begin, cursor.index()),
        decreases source.len() - cursor.index(),
    {
        match cursor.peek() {
            None => {
                return text;
            },
            Some(c) => {
                if classify(c) != class {
                    return text;
                }
                let ghost before = cursor.index();
                text.push(c);
                cursor.advance();
                assert(source.subrange(begin, before).push(source[before]) == source.subrange(
                    begin,
                    before + 1,
                ));
            },
        }
    }
}

/// Whether a word is the keyword `event`.
pub fn is_event_keyword(word: &String) -> (b: bool)
    ensures
        b == (word@ == event_keyword()),
{
    proof {
        reveal_strlit("event");
    }
    let keyword = String::from_str("event");
    assert(keyword@ == event_keyword());
    *word == keyword
}

/// Whether a word is the keyword `let`.
pub fn is_let_keyword(word: &String) -> (b: bool)
    ensures
        b == (word@ == let_keyword()),
{
    proof {
        reveal_strlit("let");
    }
    let keyword = String::from_str("let");
    assert(keyword@ == let_keyword());
    *word == keyword
}

/// Whether a word is one of the keywords.
pub fn keyword(word: &String) -> (b: bool)
    ensures
        b == is_keyword(word@),
{
    is_event_keyword(word) || is_let_keyword(word)
}

/// Reads the word at the cursor, that is the whole run of letters that begins
/// there, and appends its token: a keyword where the word is one, else an
/// identifier. Where no letter stands at the cursor nothing is read.
pub fn identifier(cursor: &mut Cursor, tokens: &mut Vec<Token>) -> (result: Result<(), LexerError>)
    ensures
        final(cursor).source() == old(cursor).source(),
        match word_at(old(cursor).source(), old(cursor).index()) {
            Ok(span) => {
                &&& result is Ok
                &&& final(cursor).index() == span.end
                &&& token_views(final(tokens)@) == token_views(old(tokens)@).push(
                    token_at(old(cursor).source(), span),
                )
            },
            Err(failure) => {
                &&& result == Err::<(), LexerError>(error_at(old(cursor).source(), failure))
                &&& final(cursor).index() == old(cursor).index()
                &&& final(tokens)@ == old(tokens)@
            },
        },
{
    let start = cursor.position();
    match cursor.peek() {
        None => Err(LexerError::UnexpectedEndOfInput(start)),
        Some(c) => {
            if classify(c) != CharClass::Letter {
                return Err(LexerError::UnrecognizedCharacter(c, start));
            }
            let lexeme = take_run(cursor, CharClass::Letter);
            let token_type = if keyword(&lexeme) {
                TokenType::Keyword
            } else {
                TokenType::Identifier
            };
            let ghost before = tokens@;
            tokens.push(Token { lexeme, token_type: Some(token_type), metadata: start });
            assert(token_views(tokens@) == token_views(before).push(tokens@.last()@));
            Ok(())
        },
    }
}

/// Reads the numeric literal at the cursor, that is the whole run of digits
/// that begins there, and appends its token. Where no digit stands at the
/// cursor nothing is read.
pub fn number(cursor: &mut Cursor, tokens: &mut Vec<Token>) -> (result: Result<(), LexerError>)
    ensures
        final(cursor).source() == old(cursor).source(),
        match number_at(old(cursor).source(), old(cursor).index()) {
            Ok(span) => {
                &&& result is Ok
                &&& final(cursor).index() == span.end
                &&& token_views(final(tokens)@) == token_views(old(tokens)@).push(
                    token_at(old(cursor).source(), span),
                )
            },
            Err(failure) => {
                &&& result == Err::<(), LexerError>(error_at(old(cursor).source(), failure))
                &&& final(cursor).index() == old(cursor).index()
                &&& final(tokens)@ == old(tokens)@
            },
        },
{
    let start = cursor.position();
    match cursor.peek() {
        None => Err(LexerError::UnexpectedEndOfInput(start)),
        Some(c) => {
            if classify(c) != CharClass::Digit {
                return Err(LexerError::UnrecognizedCharacter(c, start));
            }
            let lexeme = take_run(cursor, CharClass::Digit);
            let ghost before = tokens@;
            tokens.push(
                Token { lexeme, token_type: Some(TokenType::NumericLiteral), metadata: start },
            );
            assert(token_views(tokens@) == token_views(before).push(tokens@.last()@));
            Ok(())
        },
    }
}

/// Reads the punctuation character at the cursor and appends its token. Where
/// no punctuation stands at the cursor nothing is read.
pub fn symbol(cursor: &mut Cursor, tokens: &mut Vec<Token>) -> (result: Result<(), LexerError>)
    ensures
        final(cursor).source() == old(cursor).source(),
        match punctuation_at(old(cursor).source(), old(cursor).index()) {
            Ok(span) => {
                &&& result is Ok
                &&& final(cursor).index() == span.end
                &&& token_views(final(tokens)@) == token_views(old(tokens)@).push(
                    token_at(old(cursor).source(), span),
                )
            },
            Err(failure) => {
                &&& result == Err::<(), LexerError>(error_at(old(cursor).source(), failure))
                &&& final(cursor).index() == old(cursor).index()
                &&& final(tokens)@ == old(tokens)@
            },
        },
{
    let start = cursor.position();
    match cursor.peek() {
        None => Err(LexerError::UnexpectedEndOfInput(start)),
        Some(c) => {
            match punctuation(c) {
                None => Err(LexerError::UnrecognizedCharacter(c, start)),
                Some(kind) => {
                    let ghost at = cursor.index();
                    let mut lexeme = String::new();
                    lexeme.push(c);
                    cursor.advance();
                    assert(lexeme@ == cursor.source().subrange(at, at + 1));
                    let ghost before = tokens@;
                    tokens.push(Token { lexeme, token_type: Some(kind), metadata: start });
                    assert(token_views(tokens@) == token_views(before).push(tokens@.last()@));
                    Ok(())
                },
            }
        },
    }
}

/// Steps over whitespace and line comments, up to the first character that
/// begins a lexeme or to the end of the text. A `/` that opens no comment is
/// an error, and the cursor stops at it.
pub fn whitespace(cursor: &mut Cursor) -> (result: Result<(), LexerError>)
    ensures
        final(cursor).source() == old(cursor).source(),
        match trivia_end(old(cursor).source(), old(cursor).index()) {
            Ok(end) => result is Ok && final(cursor).index() == end,
            Err(failure) => final(cursor).index() == failure.at() && result == Err::<
                (),
                LexerError,
            >(error_at(old(cursor).source(), failure)),
        },
{
    proof {
        use_type_invariant(&*cursor);
        cursor.lemma_bounds();
    }
    loop
        invariant
            cursor.source() == old(cursor).source(),
            0 <= cursor.index() <= cursor.source().len(),
            trivia_end(cursor.source(), cursor.index()) == trivia_end(
                old(cursor).source(),
                old(cursor).index(),
            ),
        decreases cursor.source().len() - cursor.index(),
    {
        match cursor.peek() {
            None => {
                return Ok(());
            },
            Some(c) => {
                match classify(c) {
                    CharClass::Whitespace => {
                        cursor.advance();
                    },
                    CharClass::Slash => {
                        proof {
                            lemma_comment_advances(cursor.source(), cursor.index());
                        }
                        comment(cursor)?;
                    },
                    _ => {
                        return Ok(());
                    },
                }
            },
        }
    }
}

/// Reads the lexeme at the cursor, chosen by the class of the character
/// there, and appends its token.
pub fn lexeme(cursor: &mut Cursor, tokens: &mut Vec<Token>) -> (result: Result<(), LexerError>)
    ensures
        final(cursor).source() == old(cursor).source(),
        match lexeme_at(old(cursor).source(), old(cursor).index()) {
            Ok(span) => {
                &&& result is Ok
                &&& final(cursor).index() == span.end
                &&& token_views(final(tokens)@) == token_views(old(tokens)@).push(
                    token_at(old(cursor).source(), span),
                )
            },
            Err(failure) => {
                &&& result == Err::<(), LexerError>(error_at(old(cursor).source(), failure))
                &&& final(cursor).index() == old(cursor).index()
                &&& final(tokens)@ == old(tokens)@
            },
        },
{
    match cursor.peek() {
        None => Err(LexerError::UnexpectedEndOfInput(cursor.position())),
        Some(c) => {
            match classify(c) {
                CharClass::Letter => identifier(cursor, tokens),
                CharClass::Digit => number(cursor, tokens),
                CharClass::Punctuation => symbol(cursor, tokens),
                _ => Err(LexerError::UnrecognizedCharacter(c, cursor.position())),
            }
        },
    }
}

/// Scans a whole text: skips whitespace and line comments, and gives the
/// tokens of the lexemes in the order in which they stand. The first
/// character that fits no lexeme ends the scan with an error, and nothing is
/// skipped in silence.
///
/// Every token has a tag and a text that is a lexeme of it, and each lies
/// at a later position than the ones before it. An empty text, or one of
/// whitespace and comments alone, has no tokens and is no error.
pub fn scan(source: &str) -> (result: Result<Vec<Token>, LexerError>)
    ensures
        match scan_result(source@) {
            Ok(tokens) => result is Ok && token_views(result->Ok_0@) == tokens,
            Err(error) => result == Err::<Vec<Token>, LexerError>(error),
        },
        result matches Ok(tokens) ==> all_scanned(token_views(tokens@)) && in_reading_order(
            token_views(tokens@),
        ),
        is_blank(source@) ==> (result matches Ok(tokens) && tokens@.len() == 0),
{
    let mut cursor = Cursor::new(source);
    let mut tokens: Vec<Token> = Vec::new();
    let ghost text = source@;
    let ghost mut seen: Seq<Span> = Seq::empty();
    proof {
        use_type_invariant(&cursor);
        cursor.lemma_bounds();
        lemma_tokens_are_scanned(text);
        lemma_positions_rise(text);
        if is_blank(text) {
            lemma_blank_has_no_tokens(text);
        }
        assert(token_views(tokens@) == tokens_at(text, seen));
        match scan_from(text, 0) {
            Ok(rest) => {
                assert(seen + rest == rest);
            },
            Err(_) => {},
        }
    }
    loop
        invariant
            text == source@,
            cursor.source() == text,
            0 <= cursor.index() <= text.len(),
            scan_result(text) matches Ok(all) ==> all_scanned(all) && in_reading_order(all),
            is_blank(text) ==> (scan_result(text) matches Ok(all) && all.len() == 0),
            token_views(tokens@) == tokens_at(text, seen),
            match scan_from(text, cursor.index()) {
                Ok(rest) => scan_from(text, 0) == Ok::<Seq<Span>, Failure>(seen + rest),
                Err(failure) => scan_from(text, 0) == Err::<Seq<Span>, Failure>(failure),
            },
        decreases text.len() - cursor.index(),
    {
        let ghost from = cursor.index();
        proof {
            lemma_trivia_end_bounds(text, from);
        }
        whitespace(&mut cursor)?;
        if cursor.at_end() {
            proof {
                assert(seen + Seq::<Span>::empty() == seen);
            }
            return Ok(tokens);
        }
        proof {
            lemma_lexeme_bounds(text, cursor.index());
        }
        let ghost at = cursor.index();
        lexeme(&mut cursor, &mut tokens)?;
        proof {
            let span = lexeme_at(text, at)->Ok_0;
            match scan_from(text, span.end) {
                Ok(rest) => {
                    assert(seen.push(span) + rest == seen + (seq![span] + rest));
                },
                Err(_) => {},
            }
            assert(tokens_at(text, seen.push(span)) == tokens_at(text, seen).push(
                token_at(text, span),
            ));
            seen = seen.push(span);
        }
    }
}

} // verus!

//! The lexical grammar, as functions on a sequence of characters and an index
//! into it. The executable scanner is specified by these functions.

use vstd::prelude::*;
use crate::compiler::lexer::{LexerError, TokenMetadata, TokenType, TokenView};
use crate::compiler::lexer::characters::{char_class, punctuation_type, CharClass};
use crate::compiler::lexer::cursor::position_at;

verus! {

/// A lexeme in the text: its tag, the index of its first character and the
/// index just behind its last.
pub struct Span {
    pub kind: TokenType,
    pub start: int,
    pub end: int,
}

/// Why scanning stops early, and the index of the character at which the
/// lexeme that could not be read was to begin.
pub enum Failure {
    /// The text ends before the lexeme does.
    EndOfInput { at: int },
    /// No lexeme begins with the character at this index.
    Unrecognized { at: int },
}

impl Failure {
    /// The index at which the lexeme that could not be read was to begin.
    pub open spec fn at(self) -> int {
        match self {
            Failure::EndOfInput { at } => at,
            Failure::Unrecognized { at } => at,
        }
    }
}

/// The characters of the keyword `event`.
pub open spec fn event_keyword() -> Seq<char> {
    seq!['e', 'v', 'e', 'n', 't']
}

/// The characters of the keyword `let`.
pub open spec fn let_keyword() -> Seq<char> {
    seq!['l', 'e', 't']
}

/// The two characters that open a line comment.
pub open spec fn comment_opener() -> Seq<char> {
    seq!['/', '/']
}

/// Whether a word is one of the keywords.
pub open spec fn is_keyword(word: Seq<char>) -> bool {
    word == event_keyword() || word == let_keyword()
}

/// The tag of a word, that is of a whole run of letters.
pub open spec fn word_type(word: Seq<char>) -> TokenType {
    if is_keyword(word) {
        TokenType::Keyword
    } else {
        TokenType::Identifier
    }
}

/// Whether a text is one character or more, all of one class.
pub open spec fn is_run(text: Seq<char>, class: CharClass) -> bool {
    &&& text.len() > 0
    &&& forall|k: int| 0 <= k < text.len() ==> char_class(#[trigger] text[k]) == class
}

/// Whether a text is a lexeme of the tag `kind`: a keyword is one of the
/// keywords, an identifier a run of letters that is no keyword, a numeric
/// literal a run of digits, and a punctuation mark the one character of its
/// tag. Nothing is the lexeme of the end of input.
pub open spec fn is_lexeme(kind: TokenType, text: Seq<char>) -> bool {
    match kind {
        TokenType::Keyword => is_keyword(text),
        TokenType::Identifier => is_run(text, CharClass::Letter) && !is_keyword(text),
        TokenType::NumericLiteral => is_run(text, CharClass::Digit),
        TokenType::EndOfInput => false,
        _ => text.len() == 1 && punctuation_type(text[0]) == Some(kind),
    }
}

/// Whether a character behind a lexeme of the tag `kind` would be read as
/// one more character of it: a letter behind a word, a digit behind a
/// numeral.
pub open spec fn continues(kind: TokenType, c: char) -> bool {
    match kind {
        TokenType::Keyword | TokenType::Identifier => char_class(c) == CharClass::Letter,
        TokenType::NumericLiteral => char_class(c) == CharClass::Digit,
        _ => false,
    }
}

/// The index just behind the longest run of characters of one class that
/// begins at `i`; `i` itself where no such character stands there.
pub open spec fn run_end(s: Seq<char>, i: int, class: CharClass) -> int
    decreases s.len() - i,
{
    if 0 <= i < s.len() && char_class(s[i]) == class {
        run_end(s, i + 1, class)
    } else {
        i
    }
}

/// The index of the first line feed at or behind `i`, or the end of the text.
pub open spec fn line_end(s: Seq<char>, i: int) -> int
    decreases s.len() - i,
{
    if 0 <= i < s.len() && s[i] != '\n' {
        line_end(s, i + 1)
    } else {
        i
    }
}

/// How many characters of `lexeme`, from its `k`-th on, stand in the text
/// from index `i + k` on, added to `k`.
pub open spec fn match_end(s: Seq<char>, i: int, lexeme: Seq<char>, k: int) -> int
    decreases lexeme.len() - k,
{
    if 0 <= k < lexeme.len() && 0 <= i + k < s.len() && s[i + k] == lexeme[k] {
        match_end(s, i, lexeme, k + 1)
    } else {
        k
    }
}

/// Reading a given lexeme at index `i`: the index behind it where it stands
/// there in full. Where the text ends before the lexeme does, the failure is
/// the end of input; where another character stands in the way, the character
/// at `i` begins no lexeme.
pub open spec fn expect_at(s: Seq<char>, i: int, lexeme: Seq<char>) -> Result<int, Failure> {
    let k = match_end(s, i, lexeme, 0);
    if k >= lexeme.len() {
        Ok(i + k)
    } else if i + k >= s.len() {
        Err(Failure::EndOfInput { at: i })
    } else {
        Err(Failure::Unrecognized { at: i })
    }
}

/// Reading a line comment at index `i`: the index of the line feed that ends
/// it, or the end of the text. The line feed is not part of the comment.
pub open spec fn comment_at(s: Seq<char>, i: int) -> Result<int, Failure> {
    match expect_at(s, i, comment_opener()) {
        Ok(j) => Ok(line_end(s, j)),
        Err(failure) => Err(failure),
    }
}

/// Skipping whitespace and line comments from index `i`: the index of the
/// first character that begins a lexeme, or the end of the text.
pub open spec fn trivia_end(s: Seq<char>, i: int) -> Result<int, Failure>
    decreases s.len() - i,
{
    if i < 0 || i >= s.len() {
        Ok(i)
    } else if char_class(s[i]) == CharClass::Whitespace {
        trivia_end(s, i + 1)
    } else if char_class(s[i]) == CharClass::Slash {
        match comment_at(s, i) {
            Ok(j) => {
                proof {
                    lemma_comment_advances(s, i);
                }
                trivia_end(s, j)
            },
            Err(failure) => Err(failure),
        }
    } else {
        Ok(i)
    }
}

/// Whether a text holds whitespace and line comments and nothing else. A
/// comment is two slashes and what follows them on their line.
pub open spec fn is_blank(s: Seq<char>) -> bool
    decreases s.len(),
{
    if s.len() == 0 {
        true
    } else if char_class(s[0]) == CharClass::Whitespace {
        is_blank(s.drop_first())
    } else if s.len() >= 2 && s[0] == '/' && s[1] == '/' {
        proof {
            lemma_line_end_bounds(s, 2);
        }
        is_blank(s.skip(line_end(s, 2)))
    } else {
        false
    }
}

/// Reading a word at index `i`: the whole run of letters that begins there.
pub open spec fn word_at(s: Seq<char>, i: int) -> Result<Span, Failure> {
    if i < 0 || i >= s.len() {
        Err(Failure::EndOfInput { at: i })
    } else if char_class(s[i]) == CharClass::Letter {
        let end = run_end(s, i, CharClass::Letter);
        Ok(Span { kind: word_type(s.subrange(i, end)), start: i, end })
    } else {
        Err(Failure::Unrecognized { at: i })
    }
}

/// Reading a numeric literal at index `i`: the whole run of digits that
/// begins there.
pub open spec fn number_at(s: Seq<char>, i: int) -> Result<Span, Failure> {
    if i < 0 || i >= s.len() {
        Err(Failure::EndOfInput { at: i })
    } else if char_class(s[i]) == CharClass::Digit {
        Ok(Span { kind: TokenType::NumericLiteral, start: i, end: run_end(s, i, CharClass::Digit) })
    } else {
        Err(Failure::Unrecognized { at: i })
    }
}

/// Reading a punctuation character at index `i`.
pub open spec fn punctuation_at(s: Seq<char>, i: int) -> Result<Span, Failure> {
    if i < 0 || i >= s.len() {
        Err(Failure::EndOfInput { at: i })
    } else {
        match punctuation_type(s[i]) {
            Some(kind) => Ok(Span { kind, start: i, end: i + 1 }),
            None => Err(Failure::Unrecognized { at: i }),
        }
    }
}

/// Reading one lexeme at index `i`, chosen by the class of the character
/// there.
pub open spec fn lexeme_at(s: Seq<char>, i: int) -> Result<Span, Failure> {
    if i < 0 || i >= s.len() {
        Err(Failure::EndOfInput { at: i })
    } else {
        match char_class(s[i]) {
            CharClass::Letter => word_at(s, i),
            CharClass::Digit => number_at(s, i),
            CharClass::Punctuation => punctuation_at(s, i),
            _ => Err(Failure::Unrecognized { at: i }),
        }
    }
}

/// Scanning from index `i` to the end of the text: the lexemes in the order
/// in which they stand, or the first failure.
pub open spec fn scan_from(s: Seq<char>, i: int) -> Result<Seq<Span>, Failure>
    decreases s.len() - i,
{
    match trivia_end(s, i) {
        Err(failure) => Err(failure),
        Ok(j) => {
            if j < 0 || j >= s.len() {
                Ok(Seq::empty())
            } else {
                match lexeme_at(s, j) {
                    Err(failure) => Err(failure),
                    Ok(span) => {
                        proof {
                            lemma_trivia_end_bounds(s, i);
                            lemma_lexeme_bounds(s, j);
                        }
                        match scan_from(s, span.end) {
                            Err(failure) => Err(failure),
                            Ok(rest) => Ok(seq![span] + rest),
                        }
                    },
                }
            }
        },
    }
}

/// The token that a lexeme of the text `s` stands for.
pub open spec fn token_at(s: Seq<char>, span: Span) -> TokenView {
    TokenView {
        lexeme: s.subrange(span.start, span.end),
        token_type: Some(span.kind),
        metadata: position_at(s, span.start),
    }
}

/// The tokens that lexemes of the text `s` stand for.
pub open spec fn tokens_at(s: Seq<char>, spans: Seq<Span>) -> Seq<TokenView> {
    spans.map_values(|span: Span| token_at(s, span))
}

/// Whether a token has a tag and its text is a lexeme of that tag.
pub open spec fn is_scanned(token: TokenView) -> bool {
    token.token_type matches Some(kind) && is_lexeme(kind, token.lexeme)
}

/// Whether every token of a buffer has a tag and a text that is a lexeme of
/// that tag: none is empty, none is untagged, and none is the end of input.
pub open spec fn all_scanned(tokens: Seq<TokenView>) -> bool {
    forall|k: int| 0 <= k < tokens.len() ==> is_scanned(#[trigger] tokens[k])
}

/// Whether one position comes before another in reading order: on an
/// earlier line, or on the same line in an earlier column.
pub open spec fn precedes(first: TokenMetadata, second: TokenMetadata) -> bool {
    first.line_number < second.line_number || (first.line_number == second.line_number
        && first.char_number < second.char_number)
}

/// Whether the tokens of a buffer stand in reading order: each lies at a
/// later position than the ones before it.
pub open spec fn in_reading_order(tokens: Seq<TokenView>) -> bool {
    forall|a: int, b: int|
        0 <= a < b < tokens.len() ==> precedes(
            (#[trigger] tokens[a]).metadata,
            (#[trigger] tokens[b]).metadata,
        )
}

/// Whether two token buffers hold the same tags and the same texts in the
/// same order, wherever the tokens lie.
pub open spec fn same_content(left: Seq<TokenView>, right: Seq<TokenView>) -> bool {
    &&& left.len() == right.len()
    &&& forall|k: int|
        0 <= k < left.len() ==> (#[trigger] left[k]).token_type == right[k].token_type && left[k].lexeme
            == right[k].lexeme
}

/// The error that a failure in the text `s` is reported as. The end of input
/// is reported at the position just behind the last character.
pub open spec fn error_at(s: Seq<char>, failure: Failure) -> LexerError {
    match failure {
        Failure::EndOfInput { at } => LexerError::UnexpectedEndOfInput(
            position_at(s, s.len() as int),
        ),
        Failure::Unrecognized { at } => LexerError::UnrecognizedCharacter(s[at], position_at(s, at)),
    }
}

/// What scanning the whole text `s` gives: its tokens, or the first error.
pub open spec fn scan_result(s: Seq<char>) -> Result<Seq<TokenView>, LexerError> {
    match scan_from(s, 0) {
        Ok(spans) => Ok(tokens_at(s, spans)),
        Err(failure) => Err(error_at(s, failure)),
    }
}

/// A run ends at its start or behind it, and within the text.
pub proof fn lemma_run_end_bounds(s: Seq<char>, i: int, class: CharClass)
    requires
        0 <= i <= s.len(),
    ensures
        i <= run_end(s, i, class) <= s.len(),
        0 <= i < s.len() && char_class(s[i]) == class ==> i < run_end(s, i, class),
    decreases s.len() - i,
{
    if i < s.len() && char_class(s[i]) == class {
        lemma_run_end_bounds(s, i + 1, class);
    }
}

/// A line ends at the index asked about or behind it, and within the text.
pub proof fn lemma_line_end_bounds(s: Seq<char>, i: int)
    requires
        0 <= i <= s.len(),
    ensures
        i <= line_end(s, i) <= s.len(),
    decreases s.len() - i,
{
    if i < s.len() && s[i] != '\n' {
        lemma_line_end_bounds(s, i + 1);
    }
}

/// No more characters match than the lexeme has or the text has left.
pub proof fn lemma_match_end_bounds(s: Seq<char>, i: int, lexeme: Seq<char>, k: int)
    requires
        0 <= i <= s.len(),
        0 <= k <= lexeme.len(),
        i + k <= s.len(),
    ensures
        k <= match_end(s, i, lexeme, k) <= lexeme.len(),
        i + match_end(s, i, lexeme, k) <= s.len(),
    decreases lexeme.len() - k,
{
    if k < lexeme.len() && i + k < s.len() && s[i + k] == lexeme[k] {
        lemma_match_end_bounds(s, i, lexeme, k + 1);
    }
}

/// A comment that is read reaches at least two characters on.
pub proof fn lemma_comment_advances(s: Seq<char>, i: int)
    requires
        0 <= i <= s.len(),
    ensures
        comment_at(s, i) matches Ok(j) ==> i + 2 <= j <= s.len(),
{
    let opener = comment_opener();
    lemma_match_end_bounds(s, i, opener, 0);
    if expect_at(s, i, opener) is Ok {
        lemma_line_end_bounds(s, i + match_end(s, i, opener, 0));
    }
}

/// Skipping never goes back, nor beyond the end.
pub proof fn lemma_trivia_end_bounds(s: Seq<char>, i: int)
    requires
        0 <= i <= s.len(),
    ensures
        trivia_end(s, i) matches Ok(j) ==> i <= j <= s.len(),
    decreases s.len() - i,
{
    if i < s.len() {
        if char_class(s[i]) == CharClass::Whitespace {
            lemma_trivia_end_bounds(s, i + 1);
        } else if char_class(s[i]) == CharClass::Slash {
            lemma_comment_advances(s, i);
            if let Ok(j) = comment_at(s, i) {
                lemma_trivia_end_bounds(s, j);
            }
        }
    }
}

/// A lexeme that is read begins where it was looked for, is not empty, and
/// ends within the text.
pub proof fn lemma_lexeme_bounds(s: Seq<char>, i: int)
    requires
        0 <= i <= s.len(),
    ensures
        lexeme_at(s, i) matches Ok(span) ==> span.start == i && i < span.end <= s.len(),
{
    if i < s.len() {
        lemma_run_end_bounds(s, i, CharClass::Letter);
        lemma_run_end_bounds(s, i, CharClass::Digit);
    }
}

} // verus!

//! How scanning goes about a text: lemmas on the lexical grammar that the
//! laws are proved from.

use vstd::prelude::*;
use crate::compiler::lexer::TokenType;
use crate::compiler::lexer::characters::{char_class, CharClass};
use crate::compiler::lexer::cursor::{column_of, line_breaks, line_of, line_start};
use crate::compiler::lexer::grammar::{
    comment_at, comment_opener, continues, is_keyword, is_lexeme, is_run, lemma_comment_advances,
    lemma_lexeme_bounds, lemma_trivia_end_bounds, lexeme_at, line_end, match_end, run_end,
    same_content, scan_from, token_at, tokens_at, trivia_end, Failure, Span,
};
use crate::compiler::lexer::shifting::{
    lemma_scan_moves, lemma_subrange_moves, moved_failure, moved_scan, moved_spans,
};

verus! {

/// A run of characters of one class that something else follows, or
/// nothing, ends where that follows.
pub(crate) proof fn lemma_run_ends_at(s: Seq<char>, from: int, to: int, class: CharClass)
    requires
        0 <= from <= to <= s.len(),
        forall|k: int| from <= k < to ==> char_class(#[trigger] s[k]) == class,
        to == s.len() || char_class(s[to]) != class,
    ensures
        run_end(s, from, class) == to,
    decreases to - from,
{
    if from < to {
        lemma_run_ends_at(s, from + 1, to, class);
    }
}

/// Every character of a run is of its class, and behind the run stands a
/// character of another class, or nothing.
pub(crate) proof fn lemma_run_is_whole(s: Seq<char>, from: int, class: CharClass)
    requires
        0 <= from <= s.len(),
    ensures
        forall|k: int| from <= k < run_end(s, from, class) ==> char_class(#[trigger] s[k]) == class,
        run_end(s, from, class) == s.len() || char_class(s[run_end(s, from, class)]) != class,
    decreases s.len() - from,
{
    if from < s.len() && char_class(s[from]) == class {
        lemma_run_is_whole(s, from + 1, class);
    }
}

/// A line without a line feed in it ends at the line feed behind it, or at
/// the end of the text.
pub(crate) proof fn lemma_line_ends_at(s: Seq<char>, from: int, to: int)
    requires
        0 <= from <= to <= s.len(),
        forall|k: int| from <= k < to ==> #[trigger] s[k] != '\n',
        to == s.len() || s[to] == '\n',
    ensures
        line_end(s, from) == to,
    decreases to - from,
{
    if from < to {
        lemma_line_ends_at(s, from + 1, to);
    }
}

/// Two slashes open a comment, which ends with its line.
pub(crate) proof fn lemma_comment_opens(s: Seq<char>, i: int)
    requires
        0 <= i,
        i + 2 <= s.len(),
        s[i] == '/',
        s[i + 1] == '/',
    ensures
        comment_at(s, i) == Ok::<int, Failure>(line_end(s, i + 2)),
{
    let opener = comment_opener();
    assert(match_end(s, i, opener, 2) == 2);
    assert(match_end(s, i, opener, 1) == 2);
    assert(match_end(s, i, opener, 0) == 2);
}

/// Whitespace before the lexemes changes nothing.
pub(crate) proof fn lemma_scan_skips_whitespace(s: Seq<char>, i: int)
    requires
        0 <= i < s.len(),
        char_class(s[i]) == CharClass::Whitespace,
    ensures
        scan_from(s, i) == scan_from(s, i + 1),
{
}

/// A comment before the lexemes changes nothing.
pub(crate) proof fn lemma_scan_skips_comment(s: Seq<char>, i: int)
    requires
        0 <= i < s.len(),
        comment_at(s, i) is Ok,
    ensures
        scan_from(s, i) == scan_from(s, comment_at(s, i)->Ok_0),
{
    let opener = comment_opener();
    assert(match_end(s, i, opener, 0) >= 2);
    assert(s[i] == '/');
}

/// Where a lexeme begins, scanning reads it and goes on behind it.
pub(crate) proof fn lemma_scan_reads_lexeme(s: Seq<char>, i: int)
    requires
        0 <= i < s.len(),
        lexeme_at(s, i) is Ok,
    ensures
        scan_from(s, i) == match scan_from(s, lexeme_at(s, i)->Ok_0.end) {
            Ok(spans) => Ok::<Seq<Span>, Failure>(seq![lexeme_at(s, i)->Ok_0] + spans),
            Err(failure) => Err::<Seq<Span>, Failure>(failure),
        },
{
}

/// The lexemes that scanning reads lie within the text, none is empty, and
/// each ends before the next begins.
pub(crate) proof fn lemma_spans_in_order(s: Seq<char>, i: int)
    requires
        0 <= i <= s.len(),
    ensures
        scan_from(s, i) matches Ok(spans) ==> {
            &&& forall|k: int|
                0 <= k < spans.len() ==> i <= (#[trigger] spans[k]).start < spans[k].end <= s.len()
            &&& forall|a: int, b: int|
                0 <= a < b < spans.len() ==> (#[trigger] spans[a]).end <= (#[trigger] spans[b]).start
        },
    decreases s.len() - i,
{
    lemma_trivia_end_bounds(s, i);
    if let Ok(j) = trivia_end(s, i) {
        if j < s.len() {
            lemma_lexeme_bounds(s, j);
            if let Ok(span) = lexeme_at(s, j) {
                lemma_spans_in_order(s, span.end);
                if let Ok(rest) = scan_from(s, span.end) {
                    let spans = seq![span] + rest;
                    assert forall|k: int| 0 <= k < spans.len() implies i <= (#[trigger] spans[k]).start
                        < spans[k].end <= s.len() by {
                        if k > 0 {
                            assert(spans[k] == rest[k - 1]);
                        }
                    }
                    assert forall|a: int, b: int| 0 <= a < b < spans.len() implies (
                    #[trigger] spans[a]).end <= (#[trigger] spans[b]).start by {
                        assert(spans[b] == rest[b - 1]);
                        if a > 0 {
                            assert(spans[a] == rest[a - 1]);
                        }
                    }
                }
            }
        }
    }
}

/// A character that skipping does not recognize stands in the text.
pub(crate) proof fn lemma_trivia_failure_in_text(s: Seq<char>, i: int)
    requires
        0 <= i <= s.len(),
    ensures
        trivia_end(s, i) matches Err(Failure::Unrecognized { at }) ==> i <= at < s.len(),
    decreases s.len() - i,
{
    if i < s.len() {
        if char_class(s[i]) == CharClass::Whitespace {
            lemma_trivia_failure_in_text(s, i + 1);
        } else if char_class(s[i]) == CharClass::Slash {
            lemma_comment_advances(s, i);
            if let Ok(j) = comment_at(s, i) {
                lemma_trivia_failure_in_text(s, j);
            }
        }
    }
}

/// A character that scanning does not recognize stands in the text.
pub(crate) proof fn lemma_failure_in_text(s: Seq<char>, i: int)
    requires
        0 <= i <= s.len(),
    ensures
        scan_from(s, i) matches Err(Failure::Unrecognized { at }) ==> i <= at < s.len(),
    decreases s.len() - i,
{
    lemma_trivia_failure_in_text(s, i);
    lemma_trivia_end_bounds(s, i);
    if let Ok(j) = trivia_end(s, i) {
        if j < s.len() {
            lemma_lexeme_bounds(s, j);
            if let Ok(span) = lexeme_at(s, j) {
                lemma_failure_in_text(s, span.end);
            }
        }
    }
}

/// The keywords are runs of letters.
pub(crate) proof fn lemma_keywords_are_words(word: Seq<char>)
    requires
        is_keyword(word),
    ensures
        is_run(word, CharClass::Letter),
{
}

/// The lexeme read at an index is a lexeme of its tag.
pub(crate) proof fn lemma_lexeme_is_lexeme(s: Seq<char>, i: int)
    requires
        0 <= i <= s.len(),
    ensures
        lexeme_at(s, i) matches Ok(span) ==> is_lexeme(span.kind, s.subrange(span.start, span.end)),
{
    if let Ok(span) = lexeme_at(s, i) {
        lemma_lexeme_bounds(s, i);
        let text = s.subrange(span.start, span.end);
        assert forall|k: int| 0 <= k < text.len() implies text[k] == s[i + k] by {}
        if char_class(s[i]) == CharClass::Letter {
            lemma_run_is_whole(s, i, CharClass::Letter);
            assert(is_run(text, CharClass::Letter));
        } else if char_class(s[i]) == CharClass::Digit {
            lemma_run_is_whole(s, i, CharClass::Digit);
            assert(is_run(text, CharClass::Digit));
        } else {
            assert(text[0] == s[i]);
        }
    }
}

/// A lexeme at the start of a text, with nothing behind it that continues
/// it, is read whole and as what it is.
pub(crate) proof fn lemma_lexeme_in_front(kind: TokenType, text: Seq<char>, rest: Seq<char>)
    requires
        is_lexeme(kind, text),
        rest.len() == 0 || !continues(kind, rest[0]),
    ensures
        lexeme_at(text + rest, 0) == Ok::<Span, Failure>(
            Span { kind, start: 0, end: text.len() as int },
        ),
{
    let s = text + rest;
    let end = text.len() as int;
    assert(s.subrange(0, end) == text);
    assert forall|k: int| 0 <= k < end implies s[k] == text[k] by {}
    if end < s.len() {
        assert(s[end] == rest[0]);
    }
    match kind {
        TokenType::Keyword => {
            lemma_keywords_are_words(text);
            lemma_run_ends_at(s, 0, end, CharClass::Letter);
        },
        TokenType::Identifier => {
            lemma_run_ends_at(s, 0, end, CharClass::Letter);
        },
        TokenType::NumericLiteral => {
            lemma_run_ends_at(s, 0, end, CharClass::Digit);
        },
        _ => {
            assert(s[0] == text[0]);
        },
    }
}

/// A lexeme at the start of a text, with nothing behind it that continues
/// it, is the first that scanning reads, and the others are those of the
/// rest of the text.
pub(crate) proof fn lemma_scan_lexeme_in_front(kind: TokenType, text: Seq<char>, rest: Seq<char>)
    requires
        is_lexeme(kind, text),
        rest.len() == 0 || !continues(kind, rest[0]),
    ensures
        scan_from(text + rest, 0) == match scan_from(rest, 0) {
            Ok(spans) => Ok::<Seq<Span>, Failure>(
                seq![Span { kind, start: 0, end: text.len() as int }] + moved_spans(
                    spans,
                    text.len() as int,
                ),
            ),
            Err(failure) => Err::<Seq<Span>, Failure>(moved_failure(failure, text.len() as int)),
        },
{
    lemma_lexeme_in_front(kind, text, rest);
    lemma_scan_reads_lexeme(text + rest, 0);
    lemma_scan_moves(text, rest, 0);
}

/// A whitespace character at the start of a text is skipped, and the
/// lexemes are those of the rest of the text.
pub(crate) proof fn lemma_scan_whitespace_in_front(c: char, rest: Seq<char>)
    requires
        char_class(c) == CharClass::Whitespace,
    ensures
        scan_from(seq![c] + rest, 0) == moved_scan(scan_from(rest, 0), 1),
{
    lemma_scan_skips_whitespace(seq![c] + rest, 0);
    lemma_scan_moves(seq![c], rest, 0);
}

/// The tokens of a lexeme and of further lexemes are the token of the one
/// in front of the tokens of the others.
pub(crate) proof fn lemma_tokens_behind(s: Seq<char>, span: Span, spans: Seq<Span>)
    ensures
        tokens_at(s, seq![span] + spans) == seq![token_at(s, span)] + tokens_at(s, spans),
{
    let whole = tokens_at(s, seq![span] + spans);
    let parts = seq![token_at(s, span)] + tokens_at(s, spans);
    assert forall|k: int| 0 <= k < whole.len() implies #[trigger] whole[k] == parts[k] by {
        if k > 0 {
            assert((seq![span] + spans)[k] == spans[k - 1]);
        }
    }
    assert(whole == parts);
}

/// Lexemes read in `rest` and moved behind `front` stand for tokens of
/// the same tags and texts in `front + rest`.
pub(crate) proof fn lemma_moved_tokens_keep_content(front: Seq<char>, rest: Seq<char>, spans: Seq<Span>)
    requires
        forall|k: int|
            0 <= k < spans.len() ==> 0 <= (#[trigger] spans[k]).start <= spans[k].end <= rest.len(),
    ensures
        same_content(
            tokens_at(front + rest, moved_spans(spans, front.len() as int)),
            tokens_at(rest, spans),
        ),
{
    let moved = tokens_at(front + rest, moved_spans(spans, front.len() as int));
    let plain = tokens_at(rest, spans);
    assert forall|k: int| 0 <= k < moved.len() implies (#[trigger] moved[k]).token_type
        == plain[k].token_type && moved[k].lexeme == plain[k].lexeme by {
        lemma_subrange_moves(front, rest, spans[k].start, spans[k].end);
    }
}

/// A letter, a digit and a punctuation mark are no line feeds.
pub(crate) proof fn lemma_lexeme_has_no_line_feed(kind: TokenType, text: Seq<char>)
    requires
        is_lexeme(kind, text),
    ensures
        forall|k: int| 0 <= k < text.len() ==> #[trigger] text[k] != '\n',
{
    assert forall|k: int| 0 <= k < text.len() implies #[trigger] text[k] != '\n' by {
        if kind == TokenType::Keyword {
            lemma_keywords_are_words(text);
        }
        assert(char_class('\n') == CharClass::Whitespace);
        assert(char_class(text[k]) != CharClass::Whitespace);
    }
}

/// Before the first line feed of a text the line is 1 and the column is one
/// more than the index.
pub(crate) proof fn lemma_no_line_feeds(s: Seq<char>, i: int)
    requires
        0 <= i <= s.len(),
        forall|k: int| 0 <= k < i ==> #[trigger] s[k] != '\n',
    ensures
        line_breaks(s, i) == 0,
        line_start(s, i) == 0,
        line_of(s, i) == 1,
        column_of(s, i) == i + 1,
    decreases i,
{
    if i > 0 {
        lemma_no_line_feeds(s, i - 1);
    }
}

/// Of two indices of a text, the earlier has the earlier line, or the same
/// line and the earlier column.
pub(crate) proof fn lemma_position_rises(s: Seq<char>, i: int, j: int)
    requires
        0 <= i < j <= s.len(),
    ensures
        line_of(s, i) < line_of(s, j) || (line_of(s, i) == line_of(s, j) && column_of(s, i)
            < column_of(s, j)),
    decreases j - i,
{
    if i + 1 < j {
        lemma_position_rises(s, i, j - 1);
    }
}

} // verus!

//! Scanning does not look back: what is read from an index on depends only
//! on the text from that index on. These lemmas say so for each function of
//! the lexical grammar, for a text `front + rest` read from the start of
//! `rest` or behind it.

use vstd::prelude::*;
use crate::compiler::lexer::characters::{char_class, CharClass};
use crate::compiler::lexer::cursor::{column_of, line_breaks, line_of, line_start};
use crate::compiler::lexer::grammar::{
    comment_at, comment_opener, expect_at, lemma_comment_advances, lemma_lexeme_bounds,
    lemma_match_end_bounds, lemma_run_end_bounds,
    lemma_trivia_end_bounds, lexeme_at, line_end, match_end, run_end, scan_from, trivia_end,
    Failure, Span,
};

verus! {

/// A lexeme moved `by` places towards the end.
pub open spec fn moved_span(span: Span, by: int) -> Span {
    Span { kind: span.kind, start: span.start + by, end: span.end + by }
}

/// A failure moved `by` places towards the end.
pub open spec fn moved_failure(failure: Failure, by: int) -> Failure {
    match failure {
        Failure::EndOfInput { at } => Failure::EndOfInput { at: at + by },
        Failure::Unrecognized { at } => Failure::Unrecognized { at: at + by },
    }
}

/// An index that was read, or a failure, moved `by` places towards the end.
pub open spec fn moved_index(result: Result<int, Failure>, by: int) -> Result<int, Failure> {
    match result {
        Ok(index) => Ok(index + by),
        Err(failure) => Err(moved_failure(failure, by)),
    }
}

/// A lexeme that was read, or a failure, moved `by` places towards the end.
pub open spec fn moved_lexeme(result: Result<Span, Failure>, by: int) -> Result<Span, Failure> {
    match result {
        Ok(span) => Ok(moved_span(span, by)),
        Err(failure) => Err(moved_failure(failure, by)),
    }
}

/// Lexemes moved `by` places towards the end.
pub open spec fn moved_spans(spans: Seq<Span>, by: int) -> Seq<Span> {
    spans.map_values(|span: Span| moved_span(span, by))
}

/// The lexemes that were read, or a failure, moved `by` places towards the
/// end.
pub open spec fn moved_scan(result: Result<Seq<Span>, Failure>, by: int) -> Result<
    Seq<Span>,
    Failure,
> {
    match result {
        Ok(spans) => Ok(moved_spans(spans, by)),
        Err(failure) => Err(moved_failure(failure, by)),
    }
}

/// A run in `rest` is the same run in `front + rest`.
pub(crate) proof fn lemma_run_end_moves(front: Seq<char>, rest: Seq<char>, i: int, class: CharClass)
    requires
        0 <= i <= rest.len(),
    ensures
        run_end(front + rest, front.len() + i, class) == front.len() + run_end(rest, i, class),
    decreases rest.len() - i,
{
    if i < rest.len() {
        assert((front + rest)[front.len() + i] == rest[i]);
        lemma_run_end_moves(front, rest, i + 1, class);
    }
}

/// The end of a line of `rest` is the same in `front + rest`.
pub(crate) proof fn lemma_line_end_moves(front: Seq<char>, rest: Seq<char>, i: int)
    requires
        0 <= i <= rest.len(),
    ensures
        line_end(front + rest, front.len() + i) == front.len() + line_end(rest, i),
    decreases rest.len() - i,
{
    if i < rest.len() {
        assert((front + rest)[front.len() + i] == rest[i]);
        lemma_line_end_moves(front, rest, i + 1);
    }
}

/// As much of a lexeme matches in `front + rest` as in `rest`.
pub(crate) proof fn lemma_match_end_moves(
    front: Seq<char>,
    rest: Seq<char>,
    i: int,
    lexeme: Seq<char>,
    k: int,
)
    requires
        0 <= i,
        0 <= k,
    ensures
        match_end(front + rest, front.len() + i, lexeme, k) == match_end(rest, i, lexeme, k),
    decreases lexeme.len() - k,
{
    if k < lexeme.len() && i + k < rest.len() {
        assert((front + rest)[front.len() + i + k] == rest[i + k]);
        lemma_match_end_moves(front, rest, i, lexeme, k + 1);
    }
}

/// A given lexeme is read in `front + rest` as in `rest`.
pub(crate) proof fn lemma_expect_moves(front: Seq<char>, rest: Seq<char>, i: int, lexeme: Seq<char>)
    requires
        0 <= i <= rest.len(),
    ensures
        expect_at(front + rest, front.len() + i, lexeme) == moved_index(
            expect_at(rest, i, lexeme),
            front.len() as int,
        ),
{
    lemma_match_end_moves(front, rest, i, lexeme, 0);
}

/// A comment is read in `front + rest` as in `rest`.
pub(crate) proof fn lemma_comment_moves(front: Seq<char>, rest: Seq<char>, i: int)
    requires
        0 <= i <= rest.len(),
    ensures
        comment_at(front + rest, front.len() + i) == moved_index(
            comment_at(rest, i),
            front.len() as int,
        ),
{
    lemma_expect_moves(front, rest, i, comment_opener());
    lemma_match_end_bounds(rest, i, comment_opener(), 0);
    if let Ok(j) = expect_at(rest, i, comment_opener()) {
        lemma_line_end_moves(front, rest, j);
    }
}

/// Whitespace and comments are skipped in `front + rest` as in `rest`.
pub(crate) proof fn lemma_trivia_end_moves(front: Seq<char>, rest: Seq<char>, i: int)
    requires
        0 <= i <= rest.len(),
    ensures
        trivia_end(front + rest, front.len() + i) == moved_index(
            trivia_end(rest, i),
            front.len() as int,
        ),
    decreases rest.len() - i,
{
    if i < rest.len() {
        assert((front + rest)[front.len() + i] == rest[i]);
        lemma_comment_moves(front, rest, i);
        lemma_comment_advances(rest, i);
        if char_class(rest[i]) == CharClass::Whitespace {
            lemma_trivia_end_moves(front, rest, i + 1);
        } else if char_class(rest[i]) == CharClass::Slash {
            if let Ok(j) = comment_at(rest, i) {
                lemma_trivia_end_moves(front, rest, j);
            }
        }
    }
}

/// A part of `rest` is the same part of `front + rest`.
pub(crate) proof fn lemma_subrange_moves(front: Seq<char>, rest: Seq<char>, from: int, to: int)
    requires
        0 <= from <= to <= rest.len(),
    ensures
        (front + rest).subrange(front.len() + from, front.len() + to) == rest.subrange(from, to),
{
}

/// A lexeme is read in `front + rest` as in `rest`.
pub(crate) proof fn lemma_lexeme_moves(front: Seq<char>, rest: Seq<char>, i: int)
    requires
        0 <= i <= rest.len(),
    ensures
        lexeme_at(front + rest, front.len() + i) == moved_lexeme(
            lexeme_at(rest, i),
            front.len() as int,
        ),
{
    if i < rest.len() {
        assert((front + rest)[front.len() + i] == rest[i]);
        lemma_run_end_moves(front, rest, i, CharClass::Letter);
        lemma_run_end_moves(front, rest, i, CharClass::Digit);
        lemma_run_end_bounds(rest, i, CharClass::Letter);
        lemma_subrange_moves(front, rest, i, run_end(rest, i, CharClass::Letter));
    }
}

/// Scanning reads in `front + rest`, from the start of `rest` or behind it,
/// what it reads in `rest`.
pub(crate) proof fn lemma_scan_moves(front: Seq<char>, rest: Seq<char>, i: int)
    requires
        0 <= i <= rest.len(),
    ensures
        scan_from(front + rest, front.len() + i) == moved_scan(
            scan_from(rest, i),
            front.len() as int,
        ),
    decreases rest.len() - i,
{
    let by = front.len() as int;
    let whole = front + rest;
    lemma_trivia_end_moves(front, rest, i);
    lemma_trivia_end_bounds(rest, i);
    match trivia_end(rest, i) {
        Err(_) => {},
        Ok(j) => {
            if j < rest.len() {
                lemma_lexeme_moves(front, rest, j);
                lemma_lexeme_bounds(rest, j);
                match lexeme_at(rest, j) {
                    Err(_) => {},
                    Ok(span) => {
                        lemma_scan_moves(front, rest, span.end);
                        match scan_from(rest, span.end) {
                            Err(_) => {},
                            Ok(spans) => {
                                assert(moved_spans(seq![span] + spans, by) == seq![
                                    moved_span(span, by),
                                ] + moved_spans(spans, by));
                            },
                        }
                    },
                }
            } else {
                assert(moved_spans(Seq::<Span>::empty(), by) == Seq::<Span>::empty());
            }
        },
    }
}

/// Behind a front that ends a line, or behind none, lines are counted on
/// from those of the front, and columns are those of `rest`.
pub(crate) proof fn lemma_position_moves(front: Seq<char>, rest: Seq<char>, i: int)
    requires
        0 <= i <= rest.len(),
        front.len() == 0 || front.last() == '\n',
    ensures
        line_of(front + rest, front.len() + i) == line_breaks(front, front.len() as int) + line_of(
            rest,
            i,
        ),
        column_of(front + rest, front.len() + i) == column_of(rest, i),
    decreases i,
{
    let whole = front + rest;
    if i == 0 {
        lemma_front_positions(front, rest, front.len() as int);
        if front.len() > 0 {
            assert(whole[front.len() - 1] == front.last());
        }
    } else {
        assert(whole[front.len() + i - 1] == rest[i - 1]);
        lemma_position_moves(front, rest, i - 1);
    }
}

/// Within the front, lines and line starts are those of the front alone.
pub(crate) proof fn lemma_front_positions(front: Seq<char>, rest: Seq<char>, i: int)
    requires
        0 <= i <= front.len(),
    ensures
        line_breaks(front + rest, i) == line_breaks(front, i),
        line_start(front + rest, i) == line_start(front, i),
    decreases i,
{
    if i > 0 {
        assert((front + rest)[i - 1] == front[i - 1]);
        lemma_front_positions(front, rest, i - 1);
    }
}

} // verus!

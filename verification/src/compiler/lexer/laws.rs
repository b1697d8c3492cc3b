//! What holds of scanning, for every text.

use vstd::prelude::*;
use crate::compiler::lexer::{LexerError, TokenMetadata, TokenType, TokenView};
use crate::compiler::lexer::characters::{char_class, CharClass};
use crate::compiler::lexer::cursor::{lemma_position_bounds, line_breaks};
use crate::compiler::lexer::grammar::{
    all_scanned, comment_opener, event_keyword, in_reading_order, is_blank, is_lexeme,
    is_scanned, lemma_lexeme_bounds, lemma_line_end_bounds, lemma_trivia_end_bounds,
    let_keyword, lexeme_at, line_end, precedes, same_content, scan_from, scan_result, token_at,
    tokens_at, trivia_end, Failure, Span,
};
use crate::compiler::lexer::reading::{
    lemma_comment_opens, lemma_failure_in_text, lemma_lexeme_has_no_line_feed,
    lemma_lexeme_is_lexeme, lemma_line_ends_at, lemma_moved_tokens_keep_content,
    lemma_no_line_feeds, lemma_position_rises, lemma_scan_lexeme_in_front,
    lemma_scan_skips_comment, lemma_scan_skips_whitespace, lemma_scan_whitespace_in_front,
    lemma_spans_in_order, lemma_tokens_behind,
};
use crate::compiler::lexer::shifting::{
    lemma_position_moves, lemma_scan_moves, lemma_subrange_moves, moved_scan, moved_spans,
};

verus! {

/// A text of whitespace alone is blank.
pub proof fn lemma_whitespace_is_blank(s: Seq<char>)
    requires
        forall|k: int| 0 <= k < s.len() ==> char_class(#[trigger] s[k]) == CharClass::Whitespace,
    ensures
        is_blank(s),
    decreases s.len(),
{
    if s.len() > 0 {
        lemma_whitespace_is_blank(s.drop_first());
    }
}

/// An empty text, and a text of whitespace and comments alone, has no
/// tokens, and scanning it is no error.
pub proof fn lemma_blank_has_no_tokens(s: Seq<char>)
    requires
        is_blank(s),
    ensures
        scan_result(s) == Ok::<Seq<TokenView>, LexerError>(Seq::empty()),
{
    lemma_blank_has_no_lexemes(s);
    assert(tokens_at(s, Seq::<Span>::empty()) == Seq::<TokenView>::empty());
}

/// Scanning reads no lexeme in a blank text.
proof fn lemma_blank_has_no_lexemes(s: Seq<char>)
    requires
        is_blank(s),
    ensures
        scan_from(s, 0) == Ok::<Seq<Span>, Failure>(Seq::empty()),
    decreases s.len(),
{
    if s.len() > 0 {
        if char_class(s[0]) == CharClass::Whitespace {
            let rest = s.drop_first();
            lemma_blank_has_no_lexemes(rest);
            lemma_scan_skips_whitespace(s, 0);
            assert(s == seq![s[0]] + rest);
            lemma_scan_moves(seq![s[0]], rest, 0);
            assert(moved_spans(Seq::<Span>::empty(), 1) == Seq::<Span>::empty());
        } else {
            let end = line_end(s, 2);
            lemma_line_end_bounds(s, 2);
            lemma_comment_opens(s, 0);
            lemma_scan_skips_comment(s, 0);
            let front = s.take(end);
            let rest = s.skip(end);
            lemma_blank_has_no_lexemes(rest);
            assert(s == front + rest);
            lemma_scan_moves(front, rest, 0);
            assert(moved_spans(Seq::<Span>::empty(), end) == Seq::<Span>::empty());
        }
    }
}

/// A position `lines` lines further down, in the same column.
pub open spec fn lowered_position(position: TokenMetadata, lines: nat) -> TokenMetadata {
    TokenMetadata {
        line_number: (position.line_number + lines) as usize,
        char_number: position.char_number,
    }
}

/// A token `lines` lines further down, otherwise the same.
pub open spec fn lowered_token(token: TokenView, lines: nat) -> TokenView {
    TokenView {
        lexeme: token.lexeme,
        token_type: token.token_type,
        metadata: lowered_position(token.metadata, lines),
    }
}

/// Tokens `lines` lines further down, otherwise the same.
pub open spec fn lowered_tokens(tokens: Seq<TokenView>, lines: nat) -> Seq<TokenView> {
    tokens.map_values(|token: TokenView| lowered_token(token, lines))
}

/// An error `lines` lines further down, otherwise the same.
pub open spec fn lowered_error(error: LexerError, lines: nat) -> LexerError {
    match error {
        LexerError::UnexpectedEndOfInput(position) => LexerError::UnexpectedEndOfInput(
            lowered_position(position, lines),
        ),
        LexerError::UnrecognizedCharacter(character, position) => LexerError::UnrecognizedCharacter(
            character,
            lowered_position(position, lines),
        ),
    }
}

/// What scanning gives, `lines` lines further down.
pub open spec fn lowered_result(result: Result<Seq<TokenView>, LexerError>, lines: nat) -> Result<
    Seq<TokenView>,
    LexerError,
> {
    match result {
        Ok(tokens) => Ok(lowered_tokens(tokens, lines)),
        Err(error) => Err(lowered_error(error, lines)),
    }
}

/// The text of a line comment and the line feed behind it: two slashes,
/// then `text`, then the line feed.
pub open spec fn comment_line(text: Seq<char>) -> Seq<char> {
    comment_opener() + text + seq!['\n']
}

/// Behind a comment line scanning reads what it reads in the rest alone.
pub(crate) proof fn lemma_comment_line_is_skipped(text: Seq<char>, rest: Seq<char>)
    requires
        forall|k: int| 0 <= k < text.len() ==> #[trigger] text[k] != '\n',
    ensures
        scan_from(comment_line(text) + rest, 0) == moved_scan(
            scan_from(rest, 0),
            comment_line(text).len() as int,
        ),
{
    let front = comment_line(text);
    let whole = front + rest;
    let end = text.len() as int + 2;
    assert(whole[0] == '/');
    assert(whole[1] == '/');
    assert(whole[end] == '\n');
    assert forall|k: int| 2 <= k < end implies #[trigger] whole[k] != '\n' by {
        assert(whole[k] == text[k - 2]);
    }
    lemma_comment_opens(whole, 0);
    lemma_line_ends_at(whole, 2, end);
    lemma_scan_skips_comment(whole, 0);
    lemma_scan_skips_whitespace(whole, end);
    lemma_scan_moves(front, rest, 0);
}

/// A comment line holds one line feed, its last character.
proof fn lemma_comment_line_feeds(text: Seq<char>)
    requires
        forall|k: int| 0 <= k < text.len() ==> #[trigger] text[k] != '\n',
    ensures
        line_breaks(comment_line(text), comment_line(text).len() as int) == 1,
        comment_line(text).last() == '\n',
{
    let line = comment_line(text);
    assert forall|k: int| 0 <= k < line.len() - 1 implies #[trigger] line[k] != '\n' by {
        if k >= 2 {
            assert(line[k] == text[k - 2]);
        }
    }
    lemma_no_line_feeds(line, line.len() - 1);
}

/// A comment line in front of a text changes nothing but the lines at which
/// the tokens, or the error, are found: each is one line further down.
pub proof fn lemma_comment_line_in_front(text: Seq<char>, rest: Seq<char>)
    requires
        forall|k: int| 0 <= k < text.len() ==> #[trigger] text[k] != '\n',
        comment_line(text).len() + rest.len() <= usize::MAX,
    ensures
        scan_result(comment_line(text) + rest) == lowered_result(scan_result(rest), 1),
{
    let front = comment_line(text);
    let whole = front + rest;
    let by = front.len() as int;
    lemma_comment_line_is_skipped(text, rest);
    lemma_comment_line_feeds(text);
    lemma_spans_in_order(rest, 0);
    match scan_from(rest, 0) {
        Ok(spans) => {
            let moved = moved_spans(spans, by);
            assert forall|k: int| 0 <= k < spans.len() implies #[trigger] tokens_at(whole, moved)[k]
                == lowered_tokens(tokens_at(rest, spans), 1)[k] by {
                let span = spans[k];
                lemma_subrange_moves(front, rest, span.start, span.end);
                lemma_position_moves(front, rest, span.start);
                lemma_position_bounds(rest, span.start);
            }
            assert(tokens_at(whole, moved) == lowered_tokens(tokens_at(rest, spans), 1));
        },
        Err(Failure::EndOfInput { at }) => {
            lemma_position_moves(front, rest, rest.len() as int);
            lemma_position_bounds(rest, rest.len() as int);
        },
        Err(Failure::Unrecognized { at }) => {
            lemma_failure_in_text(rest, 0);
            lemma_position_moves(front, rest, at);
            lemma_position_bounds(rest, at);
            assert(whole[by + at] == rest[at]);
        },
    }
}

/// Every token that scanning gives has a tag, and its text is a lexeme of
/// that tag: no token is empty, none is untagged, and none is the end of
/// input.
pub proof fn lemma_tokens_are_scanned(s: Seq<char>)
    ensures
        scan_result(s) matches Ok(tokens) ==> all_scanned(tokens),
{
    lemma_spans_are_lexemes(s, 0);
}

/// Every lexeme that scanning reads from an index on is a lexeme of its
/// tag.
proof fn lemma_spans_are_lexemes(s: Seq<char>, i: int)
    requires
        0 <= i <= s.len(),
    ensures
        scan_from(s, i) matches Ok(spans) ==> forall|k: int|
            0 <= k < spans.len() ==> is_scanned(#[trigger] tokens_at(s, spans)[k]),
    decreases s.len() - i,
{
    lemma_trivia_end_bounds(s, i);
    if let Ok(j) = trivia_end(s, i) {
        if j < s.len() {
            lemma_lexeme_bounds(s, j);
            lemma_lexeme_is_lexeme(s, j);
            if let Ok(span) = lexeme_at(s, j) {
                lemma_spans_are_lexemes(s, span.end);
                if let Ok(rest) = scan_from(s, span.end) {
                    lemma_tokens_behind(s, span, rest);
                    let tokens = tokens_at(s, seq![span] + rest);
                    assert forall|k: int| 0 <= k < tokens.len() implies is_scanned(
                        #[trigger] tokens[k],
                    ) by {
                        if k > 0 {
                            assert(tokens[k] == tokens_at(s, rest)[k - 1]);
                        }
                    }
                }
            }
        }
    }
}

/// The texts of tokens written out in their order, with one blank between
/// each two.
pub open spec fn spelled(tokens: Seq<TokenView>) -> Seq<char>
    decreases tokens.len(),
{
    if tokens.len() == 0 {
        Seq::empty()
    } else if tokens.len() == 1 {
        tokens[0].lexeme
    } else {
        tokens[0].lexeme + seq![' '] + spelled(tokens.drop_first())
    }
}

/// A token in front of tokens of the same tags and texts makes buffers of
/// the same tags and texts.
proof fn lemma_same_content_behind(
    first: TokenView,
    again: TokenView,
    others: Seq<TokenView>,
    others_again: Seq<TokenView>,
    middle: Seq<TokenView>,
)
    requires
        first.token_type == again.token_type,
        first.lexeme == again.lexeme,
        same_content(others_again, middle),
        same_content(middle, others),
    ensures
        same_content(seq![again] + others_again, seq![first] + others),
{
    let left = seq![again] + others_again;
    let right = seq![first] + others;
    assert forall|k: int| 0 <= k < left.len() implies (#[trigger] left[k]).token_type
        == right[k].token_type && left[k].lexeme == right[k].lexeme by {
        if k > 0 {
            assert(left[k] == others_again[k - 1]);
            assert(right[k] == others[k - 1]);
            assert(others_again[k - 1].lexeme == middle[k - 1].lexeme);
            assert(middle[k - 1].lexeme == others[k - 1].lexeme);
        }
    }
}

/// Scanning the texts of scanned tokens, written out with one blank between
/// each two, gives tokens of the same tags and texts in the same order.
pub proof fn lemma_spelled_tokens_scan_alike(tokens: Seq<TokenView>)
    requires
        all_scanned(tokens),
    ensures
        scan_result(spelled(tokens)) matches Ok(again) && same_content(again, tokens),
    decreases tokens.len(), 0nat,
{
    let s = spelled(tokens);
    if tokens.len() > 0 {
        let first = tokens[0];
        let kind = first.token_type->Some_0;
        let text = first.lexeme;
        let span = Span { kind, start: 0, end: text.len() as int };
        let others = tokens.drop_first();
        let rest = if tokens.len() == 1 {
            Seq::<char>::empty()
        } else {
            seq![' '] + spelled(others)
        };
        assert(is_scanned(first));
        assert(s == text + rest);
        assert(tokens == seq![first] + others);
        assert forall|k: int| 0 <= k < others.len() implies is_scanned(#[trigger] others[k]) by {
            assert(others[k] == tokens[k + 1]);
        }
        lemma_rest_scans_alike(others, rest);
        lemma_scan_lexeme_in_front(kind, text, rest);
        let inner = scan_from(rest, 0)->Ok_0;
        let moved = moved_spans(inner, text.len() as int);
        lemma_spans_in_order(rest, 0);
        lemma_moved_tokens_keep_content(text, rest, inner);
        lemma_tokens_behind(s, span, moved);
        assert(s.subrange(0, text.len() as int) == text);
        lemma_same_content_behind(
            first,
            token_at(s, span),
            others,
            tokens_at(s, moved),
            tokens_at(rest, inner),
        );
    }
}

/// What stands behind the first of the texts written out, a blank and the
/// other texts, or nothing, scans to tokens of the tags and texts of the
/// other tokens.
proof fn lemma_rest_scans_alike(others: Seq<TokenView>, rest: Seq<char>)
    requires
        forall|k: int| 0 <= k < others.len() ==> is_scanned(#[trigger] others[k]),
        rest == if others.len() == 0 {
            Seq::<char>::empty()
        } else {
            seq![' '] + spelled(others)
        },
    ensures
        scan_from(rest, 0) matches Ok(spans) && same_content(tokens_at(rest, spans), others),
    decreases others.len(), 1nat,
{
    if others.len() > 0 {
        let tail = spelled(others);
        lemma_spelled_tokens_scan_alike(others);
        lemma_scan_whitespace_in_front(' ', tail);
        let inner = scan_from(tail, 0)->Ok_0;
        lemma_spans_in_order(tail, 0);
        lemma_moved_tokens_keep_content(seq![' '], tail, inner);
        let moved = tokens_at(rest, moved_spans(inner, 1));
        let plain = tokens_at(tail, inner);
        assert forall|k: int| 0 <= k < moved.len() implies (#[trigger] moved[k]).token_type
            == others[k].token_type && moved[k].lexeme == others[k].lexeme by {
            assert(moved[k].lexeme == plain[k].lexeme);
        }
    }
}

/// Scanning is idempotent on what the tokens hold: where a text scans to
/// tokens, the texts of those tokens, written out with one blank between
/// each two, scan to tokens of the same tags and texts in the same order.
pub proof fn lemma_scanning_again(s: Seq<char>)
    requires
        scan_result(s) is Ok,
    ensures
        scan_result(spelled(scan_result(s)->Ok_0)) matches Ok(again) && same_content(
            again,
            scan_result(s)->Ok_0,
        ),
{
    lemma_tokens_are_scanned(s);
    lemma_spelled_tokens_scan_alike(scan_result(s)->Ok_0);
}

/// A token on the first line of a text.
pub open spec fn token_on_first_line(kind: TokenType, text: Seq<char>, column: nat) -> TokenView {
    TokenView {
        lexeme: text,
        token_type: Some(kind),
        metadata: TokenMetadata { line_number: 1, char_number: column as usize },
    }
}

/// The text `event name;`.
pub open spec fn event_source(name: Seq<char>) -> Seq<char> {
    event_keyword() + seq![' '] + name + seq![';']
}

/// The text `let name = digits;`.
pub open spec fn let_source(name: Seq<char>, digits: Seq<char>) -> Seq<char> {
    let_keyword() + seq![' '] + name + seq![' ', '=', ' '] + digits + seq![';']
}

/// The lexemes of the text `event name;`.
pub open spec fn event_spans(name: Seq<char>) -> Seq<Span> {
    let n = name.len() as int;
    seq![
        Span { kind: TokenType::Keyword, start: 0, end: 5 },
        Span { kind: TokenType::Identifier, start: 6, end: n + 6 },
        Span { kind: TokenType::Semicolon, start: n + 6, end: n + 7 },
    ]
}

/// The lexemes of the text `let name = digits;`.
pub open spec fn let_spans(name: Seq<char>, digits: Seq<char>) -> Seq<Span> {
    let n = name.len() as int;
    let m = digits.len() as int;
    seq![
        Span { kind: TokenType::Keyword, start: 0, end: 3 },
        Span { kind: TokenType::Identifier, start: 4, end: n + 4 },
        Span { kind: TokenType::Assignment, start: n + 5, end: n + 6 },
        Span { kind: TokenType::NumericLiteral, start: n + 7, end: n + m + 7 },
        Span { kind: TokenType::Semicolon, start: n + m + 7, end: n + m + 8 },
    ]
}

/// Scanning `text;` reads a lexeme of the tag `kind` that nothing continues,
/// and the semicolon.
proof fn lemma_ended_spans(kind: TokenType, text: Seq<char>, n: int)
    requires
        is_lexeme(kind, text),
        n == text.len(),
    ensures
        scan_from(text + seq![';'], 0) == Ok::<Seq<Span>, Failure>(
            seq![
                Span { kind, start: 0, end: n },
                Span { kind: TokenType::Semicolon, start: n, end: n + 1 },
            ],
        ),
{
    let mark = seq![';'];
    assert(mark + Seq::<char>::empty() == mark);
    assert(scan_from(mark + Seq::<char>::empty(), 1) == Ok::<Seq<Span>, Failure>(Seq::empty()));
    lemma_scan_lexeme_in_front(TokenType::Semicolon, mark, Seq::empty());
    assert(scan_from(mark, 0)->Ok_0 == seq![Span { kind: TokenType::Semicolon, start: 0, end: 1 }]);
    lemma_scan_lexeme_in_front(kind, text, mark);
    assert(scan_from(text + mark, 0)->Ok_0 == seq![
        Span { kind, start: 0, end: n },
        Span { kind: TokenType::Semicolon, start: n, end: n + 1 },
    ]);
}

/// Scanning `event name;` reads the keyword, the name and the semicolon.
pub(crate) proof fn lemma_event_spans(name: Seq<char>)
    requires
        is_lexeme(TokenType::Identifier, name),
    ensures
        scan_from(event_source(name), 0) == Ok::<Seq<Span>, Failure>(event_spans(name)),
{
    let n = name.len() as int;
    let tail = name + seq![';'];
    let behind = seq![' '] + tail;
    assert(event_source(name) == event_keyword() + behind);
    lemma_ended_spans(TokenType::Identifier, name, n);
    lemma_scan_whitespace_in_front(' ', tail);
    assert(scan_from(behind, 0)->Ok_0 == seq![
        Span { kind: TokenType::Identifier, start: 1, end: n + 1 },
        Span { kind: TokenType::Semicolon, start: n + 1, end: n + 2 },
    ]);
    lemma_scan_lexeme_in_front(TokenType::Keyword, event_keyword(), behind);
    assert(scan_from(event_keyword() + behind, 0)->Ok_0 == event_spans(name));
}

/// Scanning `= digits;` reads the sign, the numeral and the semicolon.
proof fn lemma_assignment_spans(digits: Seq<char>, m: int)
    requires
        is_lexeme(TokenType::NumericLiteral, digits),
        m == digits.len(),
    ensures
        scan_from(seq!['='] + (seq![' '] + (digits + seq![';'])), 0) == Ok::<Seq<Span>, Failure>(
            seq![
                Span { kind: TokenType::Assignment, start: 0, end: 1 },
                Span { kind: TokenType::NumericLiteral, start: 2, end: m + 2 },
                Span { kind: TokenType::Semicolon, start: m + 2, end: m + 3 },
            ],
        ),
{
    let value = digits + seq![';'];
    let spaced = seq![' '] + value;
    lemma_ended_spans(TokenType::NumericLiteral, digits, m);
    lemma_scan_whitespace_in_front(' ', value);
    assert(scan_from(spaced, 0)->Ok_0 == seq![
        Span { kind: TokenType::NumericLiteral, start: 1, end: m + 1 },
        Span { kind: TokenType::Semicolon, start: m + 1, end: m + 2 },
    ]);
    lemma_scan_lexeme_in_front(TokenType::Assignment, seq!['='], spaced);
    assert(scan_from(seq!['='] + spaced, 0)->Ok_0 == seq![
        Span { kind: TokenType::Assignment, start: 0, end: 1 },
        Span { kind: TokenType::NumericLiteral, start: 2, end: m + 2 },
        Span { kind: TokenType::Semicolon, start: m + 2, end: m + 3 },
    ]);
}

/// Scanning `name = digits;` reads the name, the sign, the numeral and the
/// semicolon.
proof fn lemma_binding_spans(name: Seq<char>, digits: Seq<char>, n: int, m: int)
    requires
        is_lexeme(TokenType::Identifier, name),
        is_lexeme(TokenType::NumericLiteral, digits),
        n == name.len(),
        m == digits.len(),
    ensures
        scan_from(name + (seq![' '] + (seq!['='] + (seq![' '] + (digits + seq![';'])))), 0) == Ok::<
            Seq<Span>,
            Failure,
        >(
            seq![
                Span { kind: TokenType::Identifier, start: 0, end: n },
                Span { kind: TokenType::Assignment, start: n + 1, end: n + 2 },
                Span { kind: TokenType::NumericLiteral, start: n + 3, end: n + m + 3 },
                Span { kind: TokenType::Semicolon, start: n + m + 3, end: n + m + 4 },
            ],
        ),
{
    let assigned = seq!['='] + (seq![' '] + (digits + seq![';']));
    let spaced = seq![' '] + assigned;
    lemma_assignment_spans(digits, m);
    lemma_scan_whitespace_in_front(' ', assigned);
    assert(scan_from(spaced, 0)->Ok_0 == seq![
        Span { kind: TokenType::Assignment, start: 1, end: 2 },
        Span { kind: TokenType::NumericLiteral, start: 3, end: m + 3 },
        Span { kind: TokenType::Semicolon, start: m + 3, end: m + 4 },
    ]);
    lemma_scan_lexeme_in_front(TokenType::Identifier, name, spaced);
    assert(scan_from(name + spaced, 0)->Ok_0 == seq![
        Span { kind: TokenType::Identifier, start: 0, end: n },
        Span { kind: TokenType::Assignment, start: n + 1, end: n + 2 },
        Span { kind: TokenType::NumericLiteral, start: n + 3, end: n + m + 3 },
        Span { kind: TokenType::Semicolon, start: n + m + 3, end: n + m + 4 },
    ]);
}

/// Scanning `let name = digits;` reads the keyword, the name, the sign, the
/// numeral and the semicolon.
pub(crate) proof fn lemma_let_spans(name: Seq<char>, digits: Seq<char>)
    requires
        is_lexeme(TokenType::Identifier, name),
        is_lexeme(TokenType::NumericLiteral, digits),
    ensures
        scan_from(let_source(name, digits), 0) == Ok::<Seq<Span>, Failure>(let_spans(name, digits)),
{
    let n = name.len() as int;
    let m = digits.len() as int;
    let named = name + (seq![' '] + (seq!['='] + (seq![' '] + (digits + seq![';']))));
    let behind = seq![' '] + named;
    assert(let_source(name, digits) == let_keyword() + behind);
    lemma_binding_spans(name, digits, n, m);
    lemma_scan_whitespace_in_front(' ', named);
    assert(scan_from(behind, 0)->Ok_0 == seq![
        Span { kind: TokenType::Identifier, start: 1, end: n + 1 },
        Span { kind: TokenType::Assignment, start: n + 2, end: n + 3 },
        Span { kind: TokenType::NumericLiteral, start: n + 4, end: n + m + 4 },
        Span { kind: TokenType::Semicolon, start: n + m + 4, end: n + m + 5 },
    ]);
    lemma_scan_lexeme_in_front(TokenType::Keyword, let_keyword(), behind);
    assert(scan_from(let_keyword() + behind, 0)->Ok_0 == let_spans(name, digits));
}

/// The texts `event name;` and `let name = digits;` hold no line feed.
proof fn lemma_sources_are_lines(name: Seq<char>, digits: Seq<char>)
    requires
        is_lexeme(TokenType::Identifier, name),
        is_lexeme(TokenType::NumericLiteral, digits),
    ensures
        forall|k: int| 0 <= k < event_source(name).len() ==> #[trigger] event_source(name)[k] != '\n',
        forall|k: int|
            0 <= k < let_source(name, digits).len() ==> #[trigger] let_source(name, digits)[k]
                != '\n',
{
    let n = name.len() as int;
    let m = digits.len() as int;
    lemma_lexeme_has_no_line_feed(TokenType::Identifier, name);
    lemma_lexeme_has_no_line_feed(TokenType::NumericLiteral, digits);
    let event = event_source(name);
    assert forall|k: int| 0 <= k < event.len() implies #[trigger] event[k] != '\n' by {
        if 6 <= k < 6 + n {
            assert(event[k] == name[k - 6]);
        }
    }
    let binding = let_source(name, digits);
    assert forall|k: int| 0 <= k < binding.len() implies #[trigger] binding[k] != '\n' by {
        if 4 <= k < 4 + n {
            assert(binding[k] == name[k - 4]);
        }
        if 7 + n <= k < 7 + n + m {
            assert(binding[k] == digits[k - 7 - n]);
        }
    }
}

/// On the first line of a text the column of a token is one more than the
/// index at which its lexeme begins.
proof fn lemma_token_on_first_line(s: Seq<char>, span: Span, text: Seq<char>)
    requires
        0 <= span.start < span.end <= s.len() <= usize::MAX,
        forall|k: int| 0 <= k < span.start ==> #[trigger] s[k] != '\n',
        forall|k: int| 0 <= k < text.len() ==> #[trigger] text[k] == s[span.start + k],
        text.len() == span.end - span.start,
    ensures
        token_at(s, span) == token_on_first_line(span.kind, text, (span.start + 1) as nat),
{
    lemma_no_line_feeds(s, span.start);
    assert(s.subrange(span.start, span.end) == text);
}

/// For every name that is a run of letters and no keyword, the text
/// `event name;` scans to exactly three tokens: the keyword `event`, the
/// identifier `name` and a semicolon, at columns 1, 7 and behind the name.
pub proof fn lemma_event_scans(name: Seq<char>)
    requires
        is_lexeme(TokenType::Identifier, name),
        event_source(name).len() <= usize::MAX,
    ensures
        scan_result(event_source(name)) == Ok::<Seq<TokenView>, LexerError>(
            seq![
                token_on_first_line(TokenType::Keyword, event_keyword(), 1),
                token_on_first_line(TokenType::Identifier, name, 7),
                token_on_first_line(TokenType::Semicolon, seq![';'], 7 + name.len()),
            ],
        ),
{
    let s = event_source(name);
    let spans = event_spans(name);
    lemma_event_spans(name);
    lemma_sources_are_lines(name, seq!['0']);
    lemma_token_on_first_line(s, spans[0], event_keyword());
    lemma_token_on_first_line(s, spans[1], name);
    lemma_token_on_first_line(s, spans[2], seq![';']);
    assert(tokens_at(s, spans) == seq![
        token_on_first_line(TokenType::Keyword, event_keyword(), 1),
        token_on_first_line(TokenType::Identifier, name, 7),
        token_on_first_line(TokenType::Semicolon, seq![';'], 7 + name.len()),
    ]);
}

/// For every name that is a run of letters and no keyword, and every run of
/// digits, the text `let name = digits;` scans to exactly five tokens: the
/// keyword `let`, the identifier `name`, an assignment sign, the numeric
/// literal `digits` and a semicolon.
pub proof fn lemma_let_scans(name: Seq<char>, digits: Seq<char>)
    requires
        is_lexeme(TokenType::Identifier, name),
        is_lexeme(TokenType::NumericLiteral, digits),
        let_source(name, digits).len() <= usize::MAX,
    ensures
        scan_result(let_source(name, digits)) == Ok::<Seq<TokenView>, LexerError>(
            seq![
                token_on_first_line(TokenType::Keyword, let_keyword(), 1),
                token_on_first_line(TokenType::Identifier, name, 5),
                token_on_first_line(TokenType::Assignment, seq!['='], 6 + name.len()),
                token_on_first_line(TokenType::NumericLiteral, digits, 8 + name.len()),
                token_on_first_line(
                    TokenType::Semicolon,
                    seq![';'],
                    8 + name.len() + digits.len(),
                ),
            ],
        ),
{
    let s = let_source(name, digits);
    let spans = let_spans(name, digits);
    lemma_let_spans(name, digits);
    lemma_sources_are_lines(name, digits);
    lemma_token_on_first_line(s, spans[0], let_keyword());
    lemma_token_on_first_line(s, spans[1], name);
    lemma_token_on_first_line(s, spans[2], seq!['=']);
    lemma_token_on_first_line(s, spans[3], digits);
    lemma_token_on_first_line(s, spans[4], seq![';']);
    assert(tokens_at(s, spans) == seq![
        token_on_first_line(TokenType::Keyword, let_keyword(), 1),
        token_on_first_line(TokenType::Identifier, name, 5),
        token_on_first_line(TokenType::Assignment, seq!['='], 6 + name.len()),
        token_on_first_line(TokenType::NumericLiteral, digits, 8 + name.len()),
        token_on_first_line(TokenType::Semicolon, seq![';'], 8 + name.len() + digits.len()),
    ]);
}

/// The tokens of a text stand in the order of the text: each lies at a
/// later position than the one before it.
pub proof fn lemma_positions_rise(s: Seq<char>)
    requires
        s.len() <= usize::MAX,
    ensures
        scan_result(s) matches Ok(tokens) ==> in_reading_order(tokens),
{
    lemma_spans_in_order(s, 0);
    if let Ok(spans) = scan_from(s, 0) {
        let tokens = tokens_at(s, spans);
        assert forall|a: int, b: int| 0 <= a < b < tokens.len() implies precedes(
            (#[trigger] tokens[a]).metadata,
            (#[trigger] tokens[b]).metadata,
        ) by {
            let first = spans[a];
            let second = spans[b];
            assert(first.end <= second.start);
            lemma_position_rises(s, first.start, second.start);
            lemma_position_bounds(s, first.start);
            lemma_position_bounds(s, second.start);
        }
    }
}

} // verus!

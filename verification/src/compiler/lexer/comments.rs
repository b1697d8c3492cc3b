//! Line comments.

use vstd::prelude::*;
use crate::compiler::lexer::{expect, LexerError};
use crate::compiler::lexer::cursor::Cursor;
use crate::compiler::lexer::grammar::{
    comment_at, comment_opener, error_at, lemma_match_end_bounds, line_end, Failure,
};

verus! {

/// Reads the line comment at the cursor: the two slashes and every character
/// up to the next line feed or the end of the text. The line feed is left
/// standing. Where no comment opens at the cursor, that is an error, and the
/// cursor stays where it is.
pub fn comment(cursor: &mut Cursor) -> (result: Result<(), LexerError>)
    ensures
        final(cursor).source() == old(cursor).source(),
        match comment_at(old(cursor).source(), old(cursor).index()) {
            Ok(end) => result is Ok && final(cursor).index() == end,
            Err(failure) => final(cursor).index() == old(cursor).index() && result == Err::<
                (),
                LexerError,
            >(error_at(old(cursor).source(), failure)),
        },
{
    proof {
        reveal_strlit("//");
        assert("//"@ == comment_opener());
        use_type_invariant(&*cursor);
        cursor.lemma_bounds();
        lemma_match_end_bounds(cursor.source(), cursor.index(), comment_opener(), 0);
    }
    expect(cursor, "//", None)?;
    loop
        invariant
            cursor.source() == old(cursor).source(),
            0 <= cursor.index() <= cursor.source().len(),
            comment_at(old(cursor).source(), old(cursor).index()) == Ok::<int, Failure>(
                line_end(cursor.source(), cursor.index()),
            ),
        decreases cursor.source().len() - cursor.index(),
    {
        match cursor.peek() {
            None => {
                return Ok(());
            },
            Some(c) => {
                if c == '\n' {
                    return Ok(());
                }
                cursor.advance();
            },
        }
    }
}

} // verus!

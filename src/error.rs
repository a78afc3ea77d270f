//! Locating a parse failure: the line and column where it happened, and the
//! text around it.
use crate::text::split_first_char;
use vstd::prelude::*;

verus! {

/// A 1-based line and a 0-based column.
pub type TextCoordinates = (usize, usize);

/// Where parsing stopped, and the text around that point with a marker
/// before the failing character.
pub type ParseErrorContext = (TextCoordinates, String);

/// How many characters of context are shown on each side of a failure.
pub const CONTEXT_WIDTH: usize = 20;

/// The line (from 1) and column (from 0) reached after reading `text`: a line
/// feed starts a new line at column 0, any other character moves one column.
pub open spec fn coordinates(text: Seq<char>) -> (nat, nat)
    decreases text.len(),
{
    if text.len() == 0 {
        (1, 0)
    } else {
        let (line, column) = coordinates(text.drop_last());
        if text.last() == '\n' {
            (line + 1, 0)
        } else {
            (line, column + 1)
        }
    }
}

/// `x`, or `usize::MAX` where `x` is larger.
pub open spec fn saturated(x: nat) -> nat {
    if x <= usize::MAX {
        x
    } else {
        usize::MAX as nat
    }
}

proof fn lemma_coordinates_bound(text: Seq<char>)
    ensures
        coordinates(text).0 >= 1,
        coordinates(text).0 + coordinates(text).1 <= text.len() + 1,
    decreases text.len(),
{
    if text.len() > 0 {
        lemma_coordinates_bound(text.drop_last());
    }
}

/// The text shown around the failure at character `pos` of `source`: up to
/// `CONTEXT_WIDTH` characters before it, the marker, then up to
/// `CONTEXT_WIDTH` characters from the failing one on.
pub open spec fn context_text(source: Seq<char>, pos: int) -> Seq<char> {
    let start = if pos > CONTEXT_WIDTH {
        pos - CONTEXT_WIDTH
    } else {
        0
    };
    let end = if source.len() - pos > CONTEXT_WIDTH {
        pos + CONTEXT_WIDTH
    } else {
        source.len() as int
    };
    source.subrange(start, pos) + " !ERROR-> "@ + source.subrange(pos, end)
}

/// The character offset in `source` at which `remaining` starts.
pub open spec fn failure_offset(source: Seq<char>, remaining: Seq<char>) -> int {
    source.len() - remaining.len()
}

/// The coordinates of a failure where `remaining` was left of `source`.
pub open spec fn failure_coordinates(source: Seq<char>, remaining: Seq<char>) -> (nat, nat) {
    coordinates(source.take(failure_offset(source, remaining)))
}

/// The line and column reached after reading `text`; a line count beyond
/// `usize::MAX` is given as `usize::MAX`.
fn get_text_coordinates(text: &str) -> (r: TextCoordinates)
    ensures
        r.0 == saturated(coordinates(text@).0),
        r.1 == coordinates(text@).1,
{
    let ghost s = text@;
    let _ = text.unicode_len();
    let mut line: usize = 1;
    let mut col: usize = 0;
    let mut rest = text;
    let ghost mut i: int = 0;
    while !rest.is_empty()
        invariant
            s == text@,
            s.len() <= usize::MAX,
            0 <= i <= s.len(),
            rest@ == s.skip(i),
            line == saturated(coordinates(s.take(i)).0),
            col == coordinates(s.take(i)).1,
        decreases rest@.len(),
    {
        proof {
            lemma_coordinates_bound(s.take(i));
        }
        match split_first_char(rest) {
            Some((c, _, next)) => {
                proof {
                    assert(s.take(i + 1).drop_last() =~= s.take(i));
                    assert(s.take(i + 1).last() == c);
                    assert(next@ =~= s.skip(i + 1));
                    i = i + 1;
                }
                if c == '\n' {
                    col = 0;
                    if line < usize::MAX {
                        line = line + 1;
                    }
                } else {
                    col = col + 1;
                }
                rest = next;
            },
            None => {
                assert(false);
            },
        }
    }
    assert(s.take(i) =~= s);
    (line, col)
}

/// Locates a failure in `source` where `remaining` was left unconsumed:
/// the line and column of the failing character, and the text around it.
pub fn get_parse_error_context(source: &str, remaining: &str) -> (r: ParseErrorContext)
    requires
        remaining@.len() <= source@.len(),
    ensures
        r.0.0 == saturated(failure_coordinates(source@, remaining@).0),
        r.0.1 == failure_coordinates(source@, remaining@).1,
        r.1@ == context_text(source@, failure_offset(source@, remaining@)),
{
    let len = source.unicode_len();
    let pos = len - remaining.unicode_len();
    let start = if pos > CONTEXT_WIDTH {
        pos - CONTEXT_WIDTH
    } else {
        0
    };
    let end = if len - pos > CONTEXT_WIDTH {
        pos + CONTEXT_WIDTH
    } else {
        len
    };
    let mut context = String::from_str(source.substring_char(start, pos));
    context.append(" !ERROR-> ");
    context.append(source.substring_char(pos, end));
    let coordinates = get_text_coordinates(source.substring_char(0, pos));
    (coordinates, context)
}

} // verus!

//! Whitespace: single whitespace characters, runs of them, and parsers that
//! skip them on both sides.
use crate::combinators::{any_char, left, n, right, EndBound, Left, Right, N};
use crate::parser::{Outcome, ParseResult, Parser};
use crate::text::{is_white_space, white_space};
use core::marker::PhantomData;
use vstd::prelude::*;

verus! {

/// Reads one whitespace character.
pub struct WhitespaceChar;

/// A parser for one whitespace character.
pub fn whitespace_char() -> (r: WhitespaceChar) {
    WhitespaceChar
}

impl Parser<char> for WhitespaceChar {
    open spec fn wf(&self) -> bool {
        true
    }

    open spec fn spec_parse(&self, input: Seq<char>) -> Outcome<char> {
        if input.len() > 0 && is_white_space(input[0]) {
            Ok((input.drop_first(), input[0]))
        } else {
            Err(input)
        }
    }

    fn parse<'a>(&self, input: &'a str) -> (r: ParseResult<'a, char>) {
        assert(input@ =~= input@.subrange(0, input@.len() as int));
        assert(input@.drop_first() =~= input@.subrange(1, input@.len() as int));
        match any_char(input) {
            Ok((rest, c)) => if white_space(c) {
                Ok((rest, c))
            } else {
                Err(input)
            },
            Err(_) => Err(input),
        }
    }
}

/// Any number of whitespace characters, none included.
pub type Space0 = N<WhitespaceChar>;

/// Runs `P` with the whitespace on both of its sides skipped.
pub type WhitespaceWrap<P> = Right<Space0, Left<P, Space0, Vec<char>>, Vec<char>>;

/// The run of whitespace parser, as a value.
pub open spec fn spec_space0() -> Space0 {
    N { parser: WhitespaceChar, start: 0, end: EndBound::Unbounded }
}

/// `parser` with the whitespace on both sides skipped, as a value.
pub open spec fn spec_whitespace_wrap<P>(parser: P) -> WhitespaceWrap<P> {
    Right {
        first: spec_space0(),
        second: Left { first: parser, second: spec_space0(), discarded: PhantomData },
        discarded: PhantomData,
    }
}

/// Skips any number of whitespace characters and yields them.
pub fn space0() -> (r: Space0)
    ensures
        r == spec_space0(),
{
    n(whitespace_char(), 0, EndBound::Unbounded)
}

/// Skips whitespace, runs `parser`, and skips whitespace again.
pub fn whitespace_wrap<A: DeepView, P: Parser<A>>(parser: P) -> (r: WhitespaceWrap<P>)
    ensures
        r == spec_whitespace_wrap(parser),
{
    right(space0(), left(parser, space0()))
}

} // verus!

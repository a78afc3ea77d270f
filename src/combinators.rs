//! The primitive parsers and the combinators that sequence, choose and repeat
//! them.
use crate::parser::{is_suffix, outcome_of, prepend, Outcome, ParseResult, Parser};
use crate::text::split_first_char;
use core::marker::PhantomData;
use vstd::prelude::*;

verus! {

/// Matches the exact text `expected`.
pub struct Literal {
    pub expected: &'static str,
}

/// Matches `expected` at the start of the input and yields `()`.
pub fn literal(expected: &'static str) -> (r: Literal)
    ensures
        r.expected == expected,
{
    Literal { expected }
}

/// `s` begins with `prefix`.
pub open spec fn starts_with(s: Seq<char>, prefix: Seq<char>) -> bool {
    prefix.len() <= s.len() && s.subrange(0, prefix.len() as int) == prefix
}

impl Parser<()> for Literal {
    open spec fn wf(&self) -> bool {
        true
    }

    open spec fn spec_parse(&self, input: Seq<char>) -> Outcome<()> {
        if starts_with(input, self.expected@) {
            Ok((input.skip(self.expected@.len() as int), ()))
        } else {
            Err(input)
        }
    }

    fn parse<'a>(&self, input: &'a str) -> (r: ParseResult<'a, ()>) {
        let ghost e = self.expected@;
        let ghost s = input@;
        let mut expected: &str = self.expected;
        let mut rest: &'a str = input;
        let ghost mut i: int = 0;
        loop
            invariant
                s == input@,
                e == self.expected@,
                0 <= i <= e.len(),
                i <= s.len(),
                expected@ == e.skip(i),
                rest@ == s.skip(i),
                s.subrange(0, i) == e.subrange(0, i),
            decreases expected@.len(),
        {
            match split_first_char(expected) {
                None => {
                    assert(e.skip(i).len() == 0);
                    assert(e.subrange(0, i) =~= e);
                    assert(rest@ =~= s.subrange(s.len() - rest@.len(), s.len() as int));
                    return Ok((rest, ()));
                },
                Some((c, _, expected_rest)) => {
                    match split_first_char(rest) {
                        None => {
                            assert(s.skip(i).len() == 0);
                            assert(e.skip(i).len() > 0);
                            assert(input@ =~= s.subrange(0, s.len() as int));
                            return Err(input);
                        },
                        Some((d, _, rest_rest)) => {
                            if c != d {
                                assert(c == e[i] && d == s[i]);
                                assert(!starts_with(s, e)) by {
                                    if starts_with(s, e) {
                                        assert(s[i] == s.subrange(0, e.len() as int)[i]);
                                    }
                                }
                                assert(input@ =~= s.subrange(0, s.len() as int));
                                return Err(input);
                            }
                            proof {
                                assert(c == e[i] && d == s[i]);
                                assert(expected_rest@ =~= e.skip(i + 1));
                                assert(rest_rest@ =~= s.skip(i + 1));
                                assert(s.subrange(0, i + 1) =~= s.subrange(0, i).push(d));
                                assert(e.subrange(0, i + 1) =~= e.subrange(0, i).push(c));
                                i = i + 1;
                            }
                            expected = expected_rest;
                            rest = rest_rest;
                        },
                    }
                },
            }
        }
    }
}

/// The outcome of reading one character.
pub open spec fn any_char_outcome(input: Seq<char>) -> Outcome<char> {
    if input.len() > 0 {
        Ok((input.drop_first(), input[0]))
    } else {
        Err(input)
    }
}

/// Reads one character; fails on empty input.
pub fn any_char<'a>(input: &'a str) -> (r: ParseResult<'a, char>)
    ensures
        outcome_of(r) == any_char_outcome(input@),
{
    match split_first_char(input) {
        Some((c, _, rest)) => Ok((rest, c)),
        None => Err(input),
    }
}

/// `any_char` as a parser value.
pub struct AnyChar;

impl Parser<char> for AnyChar {
    open spec fn wf(&self) -> bool {
        true
    }

    open spec fn spec_parse(&self, input: Seq<char>) -> Outcome<char> {
        any_char_outcome(input)
    }

    fn parse<'a>(&self, input: &'a str) -> (r: ParseResult<'a, char>) {
        let r = any_char(input);
        assert(input@.drop_first() =~= input@.subrange(1, input@.len() as int));
        r
    }
}

/// Runs `first`, then `second` on what `first` left; yields both values.
pub struct Pair<P, Q> {
    pub first: P,
    pub second: Q,
}

/// Sequences two parsers.
pub fn pair<P, Q>(first: P, second: Q) -> (r: Pair<P, Q>)
    ensures
        r.first == first,
        r.second == second,
{
    Pair { first, second }
}

/// The outcome of running `first` and then `second`.
pub open spec fn pair_outcome<A: DeepView, B: DeepView, P: Parser<A>, Q: Parser<B>>(
    first: P,
    second: Q,
    input: Seq<char>,
) -> Outcome<(A::V, B::V)> {
    match first.spec_parse(input) {
        Ok((rest, a)) => match second.spec_parse(rest) {
            Ok((last, b)) => Ok((last, (a, b))),
            Err(at) => Err(at),
        },
        Err(at) => Err(at),
    }
}

impl<A: DeepView, B: DeepView, P: Parser<A>, Q: Parser<B>> Parser<(A, B)> for Pair<P, Q> {
    open spec fn wf(&self) -> bool {
        self.first.wf() && self.second.wf()
    }

    open spec fn spec_parse(&self, input: Seq<char>) -> Outcome<(A::V, B::V)> {
        pair_outcome(self.first, self.second, input)
    }

    fn parse<'a>(&self, input: &'a str) -> (r: ParseResult<'a, (A, B)>) {
        match self.first.parse(input) {
            Ok((rest, a)) => match self.second.parse(rest) {
                Ok((last, b)) => Ok((last, (a, b))),
                Err(at) => Err(at),
            },
            Err(at) => Err(at),
        }
    }
}

/// Runs two parsers in sequence and keeps the value of the first.
pub struct Left<P, Q, B> {
    pub first: P,
    pub second: Q,
    pub discarded: PhantomData<B>,
}

/// Sequences two parsers, keeping the first value.
pub fn left<A: DeepView, B: DeepView, P: Parser<A>, Q: Parser<B>>(first: P, second: Q) -> (r:
    Left<P, Q, B>)
    ensures
        r.first == first,
        r.second == second,
{
    Left { first, second, discarded: PhantomData }
}

impl<A: DeepView, B: DeepView, P: Parser<A>, Q: Parser<B>> Parser<A> for Left<P, Q, B> {
    open spec fn wf(&self) -> bool {
        self.first.wf() && self.second.wf()
    }

    open spec fn spec_parse(&self, input: Seq<char>) -> Outcome<A::V> {
        match pair_outcome(self.first, self.second, input) {
            Ok((rest, (a, _))) => Ok((rest, a)),
            Err(at) => Err(at),
        }
    }

    fn parse<'a>(&self, input: &'a str) -> (r: ParseResult<'a, A>) {
        match self.first.parse(input) {
            Ok((rest, a)) => match self.second.parse(rest) {
                Ok((last, _)) => Ok((last, a)),
                Err(at) => Err(at),
            },
            Err(at) => Err(at),
        }
    }
}

/// Runs two parsers in sequence and keeps the value of the second.
pub struct Right<P, Q, A> {
    pub first: P,
    pub second: Q,
    pub discarded: PhantomData<A>,
}

/// Sequences two parsers, keeping the second value.
pub fn right<A: DeepView, B: DeepView, P: Parser<A>, Q: Parser<B>>(first: P, second: Q) -> (r:
    Right<P, Q, A>)
    ensures
        r.first == first,
        r.second == second,
{
    Right { first, second, discarded: PhantomData }
}

impl<A: DeepView, B: DeepView, P: Parser<A>, Q: Parser<B>> Parser<B> for Right<P, Q, A> {
    open spec fn wf(&self) -> bool {
        self.first.wf() && self.second.wf()
    }

    open spec fn spec_parse(&self, input: Seq<char>) -> Outcome<B::V> {
        match pair_outcome(self.first, self.second, input) {
            Ok((rest, (_, b))) => Ok((rest, b)),
            Err(at) => Err(at),
        }
    }

    fn parse<'a>(&self, input: &'a str) -> (r: ParseResult<'a, B>) {
        match self.first.parse(input) {
            Ok((rest, _)) => match self.second.parse(rest) {
                Ok((last, b)) => Ok((last, b)),
                Err(at) => Err(at),
            },
            Err(at) => Err(at),
        }
    }
}

/// Tries `first`; where it fails, tries `second` on the same input.
pub struct Either<P, Q> {
    pub first: P,
    pub second: Q,
}

/// Ordered choice between two parsers: the first that succeeds wins.
pub fn either<A: DeepView, P: Parser<A>, Q: Parser<A>>(first: P, second: Q) -> (r: Either<
    P,
    Q,
>)
    ensures
        r.first == first,
        r.second == second,
{
    Either { first, second }
}

impl<A: DeepView, P: Parser<A>, Q: Parser<A>> Parser<A> for Either<P, Q> {
    open spec fn wf(&self) -> bool {
        self.first.wf() && self.second.wf()
    }

    open spec fn spec_parse(&self, input: Seq<char>) -> Outcome<A::V> {
        match self.first.spec_parse(input) {
            Ok(done) => Ok(done),
            Err(_) => self.second.spec_parse(input),
        }
    }

    fn parse<'a>(&self, input: &'a str) -> (r: ParseResult<'a, A>) {
        match self.first.parse(input) {
            Ok(done) => Ok(done),
            Err(_) => self.second.parse(input),
        }
    }
}

/// Runs a parser and wraps its value in `Some`; where it fails, succeeds with
/// `None` without consuming anything.
pub struct Optional<P> {
    pub parser: P,
}

/// Makes a parser optional.
pub fn optional<A: DeepView, P: Parser<A>>(parser: P) -> (r: Optional<P>)
    ensures
        r.parser == parser,
{
    Optional { parser }
}

impl<A: DeepView, P: Parser<A>> Parser<Option<A>> for Optional<P> {
    open spec fn wf(&self) -> bool {
        self.parser.wf()
    }

    open spec fn spec_parse(&self, input: Seq<char>) -> Outcome<Option<A::V>> {
        match self.parser.spec_parse(input) {
            Ok((rest, a)) => Ok((rest, Some(a))),
            Err(_) => Ok((input, None)),
        }
    }

    fn parse<'a>(&self, input: &'a str) -> (r: ParseResult<'a, Option<A>>) {
        match self.parser.parse(input) {
            Ok((rest, a)) => Ok((rest, Some(a))),
            Err(_) => Ok((input, None)),
        }
    }
}

/// The upper end of a repetition range.
pub enum EndBound {
    /// At most one application more than this.
    Included(usize),
    /// At most this many applications.
    Excluded(usize),
    /// No bound given: the repetition stops after `UNBOUNDED_REPETITIONS`.
    Unbounded,
}

/// How many applications an unbounded repetition attempts at most.
pub const UNBOUNDED_REPETITIONS: usize = 999999;

/// The number of applications a repetition with upper end `end` attempts at
/// most. An included `usize::MAX` saturates.
pub open spec fn attempt_limit(end: EndBound) -> nat {
    match end {
        EndBound::Included(v) => if v < usize::MAX {
            (v + 1) as nat
        } else {
            v as nat
        },
        EndBound::Excluded(v) => v as nat,
        EndBound::Unbounded => UNBOUNDED_REPETITIONS as nat,
    }
}

/// `attempt_limit` as an executable function.
pub fn limit_of(end: &EndBound) -> (r: usize)
    ensures
        r == attempt_limit(*end),
{
    match end {
        EndBound::Included(v) => if *v < usize::MAX {
            *v + 1
        } else {
            *v
        },
        EndBound::Excluded(v) => *v,
        EndBound::Unbounded => UNBOUNDED_REPETITIONS,
    }
}

/// The outcome of the repetition once `done` applications have succeeded:
/// apply `parser` again while fewer than `limit` applications were made;
/// where an application fails before `start` succeeded, fail at the input
/// reached so far; otherwise stop there.
pub open spec fn repeat_outcome<A: DeepView, P: Parser<A>>(
    parser: P,
    input: Seq<char>,
    start: nat,
    limit: nat,
    done: nat,
) -> Outcome<Seq<A::V>>
    decreases limit - done,
{
    if done >= limit {
        Ok((input, Seq::empty()))
    } else {
        match parser.spec_parse(input) {
            Ok((rest, a)) => prepend(seq![a], repeat_outcome(parser, rest, start, limit, done + 1)),
            Err(_) => if done < start {
                Err(input)
            } else {
                Ok((input, Seq::empty()))
            },
        }
    }
}

/// Applies a parser greedily, between `start` and the attempt limit of `end`
/// times. Where fewer than `start` applications succeed it fails at the input
/// reached so far: what was consumed is not given back.
pub struct N<P> {
    pub parser: P,
    pub start: usize,
    pub end: EndBound,
}

/// Repeats `parser` for a count in the range from `start` to `end`.
pub fn n<A: DeepView, P: Parser<A>>(parser: P, start: usize, end: EndBound) -> (r: N<P>)
    ensures
        r.parser == parser,
        r.start == start,
        r.end == end,
{
    N { parser, start, end }
}

/// Repeats `parser` any number of times, none included.
pub fn zero_or_more<A: DeepView, P: Parser<A>>(parser: P) -> (r: N<P>)
    ensures
        r.parser == parser,
        r.start == 0,
        r.end == EndBound::Unbounded,
{
    n(parser, 0, EndBound::Unbounded)
}

/// Repeats `parser` at least once.
pub fn one_or_more<A: DeepView, P: Parser<A>>(parser: P) -> (r: N<P>)
    ensures
        r.parser == parser,
        r.start == 1,
        r.end == EndBound::Unbounded,
{
    n(parser, 1, EndBound::Unbounded)
}

/// Repeats `parser` at least twice.
pub fn two_or_more<A: DeepView, P: Parser<A>>(parser: P) -> (r: N<P>)
    ensures
        r.parser == parser,
        r.start == 2,
        r.end == EndBound::Unbounded,
{
    n(parser, 2, EndBound::Unbounded)
}

impl<A: DeepView, P: Parser<A>> Parser<Vec<A>> for N<P> {
    open spec fn wf(&self) -> bool {
        self.parser.wf()
    }

    open spec fn spec_parse(&self, input: Seq<char>) -> Outcome<Seq<A::V>> {
        repeat_outcome(self.parser, input, self.start as nat, attempt_limit(self.end), 0)
    }

    fn parse<'a>(&self, input: &'a str) -> (r: ParseResult<'a, Vec<A>>) {
        let limit = limit_of(&self.end);
        let ghost start = self.start as nat;
        let mut result: Vec<A> = Vec::new();
        let mut rest: &'a str = input;
        let mut num: usize = 0;
        assert(result.deep_view() =~= Seq::<A::V>::empty());
        assert(prepend(Seq::<A::V>::empty(), repeat_outcome(self.parser, input@, start, limit as nat, 0))
            == repeat_outcome(self.parser, input@, start, limit as nat, 0)) by {
            match repeat_outcome(self.parser, input@, start, limit as nat, 0) {
                Ok((r, vs)) => {
                    assert(Seq::<A::V>::empty() + vs =~= vs);
                },
                Err(_) => {},
            }
        }
        while num < limit
            invariant
                self.wf(),
                num <= limit,
                limit == attempt_limit(self.end),
                start == self.start,
                is_suffix(rest@, input@),
                repeat_outcome(self.parser, input@, start, limit as nat, 0) == prepend(
                    result.deep_view(),
                    repeat_outcome(self.parser, rest@, start, limit as nat, num as nat),
                ),
            decreases limit - num,
        {
            match self.parser.parse(rest) {
                Ok((next, value)) => {
                    let ghost before = result.deep_view();
                    let ghost tail = repeat_outcome(self.parser, next@, start, limit as nat, (num + 1) as nat);
                    result.push(value);
                    proof {
                        assert(result.deep_view() =~= before.push(value.deep_view()));
                        match tail {
                            Ok((r, vs)) => {
                                assert(before + (seq![value.deep_view()] + vs) =~= before.push(
                                    value.deep_view(),
                                ) + vs);
                            },
                            Err(_) => {},
                        }
                        lemma_suffix_trans_local(next@, rest@, input@);
                    }
                    rest = next;
                    num = num + 1;
                },
                Err(_) => {
                    if num < self.start {
                        return Err(rest);
                    }
                    assert(result.deep_view() + Seq::<A::V>::empty() =~= result.deep_view());
                    return Ok((rest, result));
                },
            }
        }
        assert(result.deep_view() + Seq::<A::V>::empty() =~= result.deep_view());
        Ok((rest, result))
    }
}

proof fn lemma_suffix_trans_local(a: Seq<char>, b: Seq<char>, c: Seq<char>)
    requires
        is_suffix(a, b),
        is_suffix(b, c),
    ensures
        is_suffix(a, c),
{
    assert(a =~= c.subrange(c.len() - a.len(), c.len() as int)) by {
        assert forall|i: int| 0 <= i < a.len() implies a[i] == c[c.len() - a.len() + i] by {
            assert(a[i] == b[b.len() - a.len() + i]);
            assert(b[b.len() - a.len() + i] == c[c.len() - b.len() + (b.len() - a.len() + i)]);
        }
    }
}

} // verus!

//! Combinators that hand a parsed value to a function: `map` transforms it,
//! `pred` filters on it and `and_then` picks the next parser from it.
use crate::parser::{outcome_of, remainder, Outcome, ParseResult, Parser};
use core::marker::PhantomData;
use vstd::prelude::*;

verus! {

/// `f` may be called on every value.
pub open spec fn total<A, B, F: Fn(A) -> B>(f: F) -> bool {
    forall|a: A| #[trigger] f.requires((a,))
}

/// Arguments with one deep view give results with one deep view.
pub open spec fn view_functional<A: DeepView, B: DeepView, F: Fn(A) -> B>(f: F) -> bool {
    forall|a1: A, a2: A, b1: B, b2: B|
        #![trigger f.ensures((a1,), b1), f.ensures((a2,), b2)]
        a1.deep_view() == a2.deep_view() && f.ensures((a1,), b1) && f.ensures((a2,), b2)
            ==> b1.deep_view() == b2.deep_view()
}

/// The deep view of what `f` gives for an argument whose deep view is `a`.
pub open spec fn image<A: DeepView, B: DeepView, F: Fn(A) -> B>(f: F, a: A::V) -> B::V {
    let (x, y) = choose|x: A, y: B| x.deep_view() == a && #[trigger] f.ensures((x,), y);
    y.deep_view()
}

/// Runs a parser and transforms its value with `f`.
pub struct Mapped<P, F, A> {
    pub parser: P,
    pub f: F,
    pub argument: PhantomData<A>,
}

/// Transforms the value of `parser` with `f`; a failure passes through.
pub fn map<A: DeepView, B: DeepView, P: Parser<A>, F: Fn(A) -> B>(parser: P, f: F) -> (r: Mapped<
    P,
    F,
    A,
>)
    ensures
        r.parser == parser,
        r.f == f,
{
    Mapped { parser, f, argument: PhantomData }
}

impl<A: DeepView, B: DeepView, P: Parser<A>, F: Fn(A) -> B> Parser<B> for Mapped<P, F, A> {
    open spec fn wf(&self) -> bool {
        self.parser.wf() && total(self.f) && view_functional(self.f)
    }

    open spec fn spec_parse(&self, input: Seq<char>) -> Outcome<B::V> {
        match self.parser.spec_parse(input) {
            Ok((rest, a)) => Ok((rest, image(self.f, a))),
            Err(at) => Err(at),
        }
    }

    fn parse<'a>(&self, input: &'a str) -> (r: ParseResult<'a, B>) {
        match self.parser.parse(input) {
            Ok((rest, a)) => {
                let b = (self.f)(a);
                proof {
                    assert(exists|x: A, y: B|
                        x.deep_view() == a.deep_view() && #[trigger] self.f.ensures((x,), y));
                }
                Ok((rest, b))
            },
            Err(at) => Err(at),
        }
    }
}

/// `f` may be called on a reference to every value.
pub open spec fn total_on_refs<A, F: Fn(&A) -> bool>(f: F) -> bool {
    forall|a: A| #[trigger] f.requires((&a,))
}

/// Arguments with one deep view get one answer.
pub open spec fn test_functional<A: DeepView, F: Fn(&A) -> bool>(f: F) -> bool {
    forall|a1: A, a2: A, b1: bool, b2: bool|
        #![trigger f.ensures((&a1,), b1), f.ensures((&a2,), b2)]
        a1.deep_view() == a2.deep_view() && f.ensures((&a1,), b1) && f.ensures((&a2,), b2) ==> b1
            == b2
}

/// `f` accepts a value whose deep view is `a`.
pub open spec fn accepts<A: DeepView, F: Fn(&A) -> bool>(f: F, a: A::V) -> bool {
    exists|x: A| x.deep_view() == a && #[trigger] f.ensures((&x,), true)
}

/// Runs a parser and keeps its value only where `f` accepts it.
pub struct Pred<P, F> {
    pub parser: P,
    pub f: F,
}

/// Succeeds where `parser` succeeds and `f` accepts the value; otherwise
/// fails at the original input, consuming nothing.
pub fn pred<A: DeepView, P: Parser<A>, F: Fn(&A) -> bool>(parser: P, f: F) -> (r: Pred<P, F>)
    ensures
        r.parser == parser,
        r.f == f,
{
    Pred { parser, f }
}

impl<A: DeepView, P: Parser<A>, F: Fn(&A) -> bool> Parser<A> for Pred<P, F> {
    open spec fn wf(&self) -> bool {
        self.parser.wf() && total_on_refs(self.f) && test_functional(self.f)
    }

    open spec fn spec_parse(&self, input: Seq<char>) -> Outcome<A::V> {
        match self.parser.spec_parse(input) {
            Ok((rest, a)) => if accepts(self.f, a) {
                Ok((rest, a))
            } else {
                Err(input)
            },
            Err(_) => Err(input),
        }
    }

    fn parse<'a>(&self, input: &'a str) -> (r: ParseResult<'a, A>) {
        assert(input@ =~= input@.subrange(0, input@.len() as int));
        match self.parser.parse(input) {
            Ok((rest, a)) => {
                let keep = (self.f)(&a);
                if keep {
                    Ok((rest, a))
                } else {
                    Err(input)
                }
            },
            Err(_) => Err(input),
        }
    }
}

/// Every parser that `f` gives is well formed.
pub open spec fn gives_wf<A, B: DeepView, Q: Parser<B>, F: Fn(A) -> Q>(f: F) -> bool {
    forall|a: A, q: Q| #[trigger] f.ensures((a,), q) ==> q.wf()
}

/// Arguments with one deep view give one parser.
pub open spec fn parser_functional<A: DeepView, Q, F: Fn(A) -> Q>(f: F) -> bool {
    forall|a1: A, a2: A, q1: Q, q2: Q|
        #![trigger f.ensures((a1,), q1), f.ensures((a2,), q2)]
        a1.deep_view() == a2.deep_view() && f.ensures((a1,), q1) && f.ensures((a2,), q2) ==> q1
            == q2
}

/// The parser that `f` gives for an argument whose deep view is `a`.
pub open spec fn next_parser<A: DeepView, Q, F: Fn(A) -> Q>(f: F, a: A::V) -> Q {
    let (x, q) = choose|x: A, q: Q| x.deep_view() == a && #[trigger] f.ensures((x,), q);
    q
}

/// Runs a parser, asks `f` for the next parser given the value, and runs
/// that on the rest.
pub struct AndThen<P, F, A> {
    pub parser: P,
    pub f: F,
    pub argument: PhantomData<A>,
}

/// Chains `parser` with the parser that `f` builds from its value.
pub fn and_then<A: DeepView, B: DeepView, Q: Parser<B>, P: Parser<A>, F: Fn(A) -> Q>(
    parser: P,
    f: F,
) -> (r: AndThen<P, F, A>)
    ensures
        r.parser == parser,
        r.f == f,
{
    AndThen { parser, f, argument: PhantomData }
}

impl<A: DeepView, B: DeepView, Q: Parser<B>, P: Parser<A>, F: Fn(A) -> Q> Parser<B> for AndThen<
    P,
    F,
    A,
> {
    open spec fn wf(&self) -> bool {
        &&& self.parser.wf()
        &&& total(self.f)
        &&& gives_wf(self.f)
        &&& parser_functional(self.f)
    }

    open spec fn spec_parse(&self, input: Seq<char>) -> Outcome<B::V> {
        match self.parser.spec_parse(input) {
            Ok((rest, a)) => next_parser(self.f, a).spec_parse(rest),
            Err(at) => Err(at),
        }
    }

    fn parse<'a>(&self, input: &'a str) -> (r: ParseResult<'a, B>) {
        match self.parser.parse(input) {
            Ok((rest, a)) => {
                let ghost av = a.deep_view();
                let next = (self.f)(a);
                proof {
                    assert(exists|x: A, q: Q| x.deep_view() == av && #[trigger] self.f.ensures((x,), q));
                }
                let r = next.parse(rest);
                proof {
                    let o = remainder(outcome_of(r));
                    assert(o =~= input@.subrange(input@.len() - o.len(), input@.len() as int)) by {
                        assert forall|i: int| 0 <= i < o.len() implies o[i] == input@[input@.len()
                            - o.len() + i] by {
                            assert(o[i] == rest@[rest@.len() - o.len() + i]);
                            assert(rest@[rest@.len() - o.len() + i] == input@[input@.len()
                                - rest@.len() + (rest@.len() - o.len() + i)]);
                        }
                    }
                }
                r
            },
            Err(at) => Err(at),
        }
    }
}

/// A parser kept on the heap.
pub struct BoxedParser<P> {
    pub parser: Box<P>,
}

impl<P> BoxedParser<P> {
    /// Boxes `parser`.
    pub fn new(parser: P) -> (r: Self)
        ensures
            *r.parser == parser,
    {
        BoxedParser { parser: Box::new(parser) }
    }
}

impl<A: DeepView, P: Parser<A>> Parser<A> for BoxedParser<P> {
    open spec fn wf(&self) -> bool {
        (*self.parser).wf()
    }

    open spec fn spec_parse(&self, input: Seq<char>) -> Outcome<A::V> {
        (*self.parser).spec_parse(input)
    }

    fn parse<'a>(&self, input: &'a str) -> (r: ParseResult<'a, A>) {
        self.parser.parse(input)
    }
}

} // verus!

//! The parser abstraction: a function from an input slice to either the rest
//! of the input with a value, or the input at the point of failure.
use crate::transform::{AndThen, BoxedParser, Mapped, Pred};
use core::marker::PhantomData;
use vstd::prelude::*;

verus! {

/// The result of running a parser on a string slice: on success the
/// unconsumed rest of the input and the parsed value, on failure the input
/// at the point where parsing stopped.
pub type ParseResult<'a, Output> = Result<(&'a str, Output), &'a str>;

/// The mathematical counterpart of a `ParseResult`: remaining characters and
/// the deep view of the value, or the remaining characters at failure.
pub type Outcome<V> = Result<(Seq<char>, V), Seq<char>>;

/// The outcome that an executable parse result stands for.
pub open spec fn outcome_of<'a, Output: DeepView>(r: ParseResult<'a, Output>) -> Outcome<Output::V> {
    match r {
        Ok((rest, value)) => Ok((rest@, value.deep_view())),
        Err(rest) => Err(rest@),
    }
}

/// The characters left over by an outcome, whether it succeeded or failed.
pub open spec fn remainder<V>(o: Outcome<V>) -> Seq<char> {
    match o {
        Ok((rest, _)) => rest,
        Err(rest) => rest,
    }
}

/// `r` is a suffix of `s`.
pub open spec fn is_suffix(r: Seq<char>, s: Seq<char>) -> bool {
    r.len() <= s.len() && r =~= s.subrange(s.len() - r.len(), s.len() as int)
}

/// Prepends `values` to the value of a successful outcome; a failure is kept.
pub open spec fn prepend<V>(values: Seq<V>, o: Outcome<Seq<V>>) -> Outcome<Seq<V>> {
    match o {
        Ok((rest, tail)) => Ok((rest, values + tail)),
        Err(rest) => Err(rest),
    }
}

/// Anything that parses a string slice into an `Output`.
///
/// `spec_parse` is the parser's meaning on character sequences; `wf` states
/// what the parser needs of its parts (of the closures it holds, say) for
/// `parse` to follow that meaning.
pub trait Parser<Output: DeepView> {
    spec fn wf(&self) -> bool;

    spec fn spec_parse(&self, input: Seq<char>) -> Outcome<Output::V>;

    fn parse<'a>(&self, input: &'a str) -> (r: ParseResult<'a, Output>)
        requires
            self.wf(),
        ensures
            outcome_of(r) == self.spec_parse(input@),
            is_suffix(remainder(outcome_of(r)), input@),
    ;

    /// Chains this parser with the parser that `f` builds from its value.
    fn and_then<NextParser, F: Fn(Output) -> NextParser>(self, f: F) -> (r: BoxedParser<
        AndThen<Self, F, Output>,
    >) where Self: Sized
        ensures
            (*r.parser).parser == self,
            (*r.parser).f == f,
    {
        BoxedParser::new(AndThen { parser: self, f, argument: PhantomData })
    }

    /// Transforms the value of this parser with `f`.
    fn map<NewOutput: DeepView, F: Fn(Output) -> NewOutput>(self, f: F) -> (r: BoxedParser<
        Mapped<Self, F, Output>,
    >) where Self: Sized
        ensures
            (*r.parser).parser == self,
            (*r.parser).f == f,
    {
        BoxedParser::new(Mapped { parser: self, f, argument: PhantomData })
    }

    /// Keeps the value of this parser only where `f` accepts it.
    fn pred<F: Fn(&Output) -> bool>(self, f: F) -> (r: BoxedParser<Pred<Self, F>>) where
        Self: Sized,
        ensures
            (*r.parser).parser == self,
            (*r.parser).f == f,
    {
        BoxedParser::new(Pred { parser: self, f })
    }
}

} // verus!

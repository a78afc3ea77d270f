//! Jobs: the whole configuration, a sequence of tasks.
use crate::combinators::{n, EndBound, N};
use crate::parser::{Outcome, ParseResult, Parser};
use crate::process::ProcessView;
use crate::task::{Task, TaskParser};
use crate::whitespace::{spec_whitespace_wrap, whitespace_wrap, WhitespaceWrap};
use vstd::prelude::*;

verus! {

/// A whole job description: its tasks, in order.
#[derive(Clone, Debug, PartialEq, Eq)]
pub struct Job {
    pub tasks: Vec<Task>,
}

impl DeepView for Job {
    type V = Seq<Seq<ProcessView>>;

    open spec fn deep_view(&self) -> Seq<Seq<ProcessView>> {
        self.tasks.deep_view()
    }
}

/// One or more whitespace-wrapped tasks.
pub type Tasks = N<WhitespaceWrap<TaskParser>>;

/// The repetition of tasks, as a value.
pub open spec fn spec_tasks() -> Tasks {
    N { parser: spec_whitespace_wrap(TaskParser), start: 1, end: EndBound::Unbounded }
}

/// Parses one or more tasks into a `Job`.
pub struct JobParser;

/// The job parser.
pub fn job() -> (r: JobParser) {
    JobParser
}

impl Parser<Job> for JobParser {
    open spec fn wf(&self) -> bool {
        true
    }

    open spec fn spec_parse(&self, input: Seq<char>) -> Outcome<Seq<Seq<ProcessView>>> {
        spec_tasks().spec_parse(input)
    }

    fn parse<'a>(&self, input: &'a str) -> (r: ParseResult<'a, Job>) {
        let tasks = n(whitespace_wrap(TaskParser), 1, EndBound::Unbounded);
        match tasks.parse(input) {
            Ok((rest, tasks)) => Ok((rest, Job { tasks })),
            Err(at) => Err(at),
        }
    }
}

} // verus!

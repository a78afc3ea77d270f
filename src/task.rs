//! Tasks: a single process, or a bracketed group of processes that run
//! concurrently.
use crate::combinators::Either;
use crate::parser::{Outcome, ParseResult, Parser};
use crate::process::{ConcurrentProcesses, Process, ProcessView, SingleProcess};
use vstd::prelude::*;

verus! {

/// The processes of one step of a job; two or more run concurrently.
#[derive(Clone, Debug, PartialEq, Eq)]
pub struct Task {
    pub processes: Vec<Process>,
}

impl DeepView for Task {
    type V = Seq<ProcessView>;

    open spec fn deep_view(&self) -> Seq<ProcessView> {
        self.processes.deep_view()
    }
}

/// A bracketed group of concurrent processes, or else a single process.
pub struct TaskParser;

/// The task parser.
pub fn task() -> (r: TaskParser) {
    TaskParser
}

/// A concurrent group, tried first, or a single process.
pub open spec fn spec_task_choice() -> Either<ConcurrentProcesses, SingleProcess> {
    Either { first: ConcurrentProcesses, second: SingleProcess }
}

impl Parser<Task> for TaskParser {
    open spec fn wf(&self) -> bool {
        true
    }

    open spec fn spec_parse(&self, input: Seq<char>) -> Outcome<Seq<ProcessView>> {
        spec_task_choice().spec_parse(input)
    }

    fn parse<'a>(&self, input: &'a str) -> (r: ParseResult<'a, Task>) {
        let choice = Either { first: ConcurrentProcesses, second: SingleProcess };
        match choice.parse(input) {
            Ok((rest, processes)) => Ok((rest, Task { processes })),
            Err(at) => Err(at),
        }
    }
}

} // verus!

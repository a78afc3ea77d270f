//! A parser for a small job-description language, built from verified parser
//! combinators.
//!
//! A job is a sequence of tasks; a task is one process, or a bracketed group
//! of two or more processes that run concurrently; a process has a name,
//! optional success (`?`) and failure (`:`) targets, ends with `;`, may be
//! wrapped in parentheses to run silently, and may be followed by `@name` log
//! monitors.
pub mod combinators;
pub mod error;
pub mod job;
pub mod laws;
pub mod parser;
pub mod process;
pub mod round_trip;
pub mod task;
pub mod text;
pub mod transform;
pub mod whitespace;

pub use crate::error::{get_parse_error_context, ParseErrorContext};
pub use crate::job::{job, Job, JobParser};
pub use crate::parser::{ParseResult, Parser};
pub use crate::process::{Process, ProcessView};
pub use crate::task::{task, Task};

use crate::error::{context_text, failure_coordinates, failure_offset, saturated};
use vstd::prelude::*;

verus! {

/// What a failed parse reports: the line and column, and the context text.
pub open spec fn error_report(source: Seq<char>, remaining: Seq<char>) -> ((nat, nat), Seq<char>) {
    let (line, column) = failure_coordinates(source, remaining);
    ((saturated(line), column), context_text(source, failure_offset(source, remaining)))
}

/// The meaning of `parse_job`: the tasks where the job grammar consumes the
/// whole source, otherwise the report for the point where parsing stopped.
pub open spec fn job_result(source: Seq<char>) -> Result<
    Seq<Seq<ProcessView>>,
    ((nat, nat), Seq<char>),
> {
    match JobParser.spec_parse(source) {
        Ok((rest, tasks)) => if rest.len() == 0 {
            Ok(tasks)
        } else {
            Err(error_report(source, rest))
        },
        Err(rest) => Err(error_report(source, rest)),
    }
}

/// Parses a whole job description. Fails with the line, column and context
/// of the first point the grammar could not continue from, including
/// unconsumed text after the last task.
pub fn parse_job(source: &str) -> (r: Result<Job, ParseErrorContext>)
    ensures
        match r {
            Ok(parsed) => job_result(source@) == Ok::<_, ((nat, nat), Seq<char>)>(
                parsed.deep_view(),
            ),
            Err(((line, column), context)) => job_result(source@) == Err::<
                Seq<Seq<ProcessView>>,
                _,
            >(((line as nat, column as nat), context@)),
        },
{
    match JobParser.parse(source) {
        Ok((rest, parsed)) => {
            if rest.is_empty() {
                Ok(parsed)
            } else {
                Err(get_parse_error_context(source, rest))
            }
        },
        Err(rest) => Err(get_parse_error_context(source, rest)),
    }
}

} // verus!

//! Processes: names, success and failure targets, the silent marker, log
//! monitors, and bracketed groups of processes that run concurrently.
use crate::combinators::{
    left, literal, n, optional, pair, pair_outcome, right, EndBound, Left, Literal, Optional, Pair,
    Right, N,
};
use crate::parser::{is_suffix, outcome_of, remainder, Outcome, ParseResult, Parser};
use crate::text::{is_name_char, name_char, split_first_char};
use crate::whitespace::{spec_whitespace_wrap, whitespace_wrap, WhitespaceWrap};
use core::marker::PhantomData;
use vstd::prelude::*;

verus! {

/// A named unit of work with its continuations and log monitors.
#[derive(Clone, Debug, PartialEq, Eq)]
pub struct Process {
    pub log_monitors: Vec<String>,
    pub name: String,
    pub onfail: Option<String>,
    pub onsucceed: Option<String>,
    pub silent: bool,
}

/// The mathematical value of a `Process`.
pub struct ProcessView {
    pub name: Seq<char>,
    pub onsucceed: Option<Seq<char>>,
    pub onfail: Option<Seq<char>>,
    pub silent: bool,
    pub log_monitors: Seq<Seq<char>>,
}

impl DeepView for Process {
    type V = ProcessView;

    open spec fn deep_view(&self) -> ProcessView {
        ProcessView {
            name: self.name@,
            onsucceed: self.onsucceed.deep_view(),
            onfail: self.onfail.deep_view(),
            silent: self.silent,
            log_monitors: self.log_monitors.deep_view(),
        }
    }
}

/// The number of name characters at the start of `s`.
pub open spec fn name_len(s: Seq<char>) -> nat
    decreases s.len(),
{
    if s.len() > 0 && is_name_char(s[0]) {
        1 + name_len(s.drop_first())
    } else {
        0
    }
}

/// A name is no longer than the text it is read from.
pub proof fn lemma_name_len_bound(s: Seq<char>)
    ensures
        name_len(s) <= s.len(),
    decreases s.len(),
{
    if s.len() > 0 && is_name_char(s[0]) {
        lemma_name_len_bound(s.drop_first());
    }
}

/// Reads the longest run of name characters, which may be empty; never fails.
pub struct ProcessName;

impl Parser<String> for ProcessName {
    open spec fn wf(&self) -> bool {
        true
    }

    open spec fn spec_parse(&self, input: Seq<char>) -> Outcome<Seq<char>> {
        Ok((input.skip(name_len(input) as int), input.take(name_len(input) as int)))
    }

    fn parse<'a>(&self, input: &'a str) -> (r: ParseResult<'a, String>) {
        process_name(input)
    }
}

fn process_name<'a>(input: &'a str) -> (r: ParseResult<'a, String>)
    ensures
        outcome_of(r) == ProcessName.spec_parse(input@),
        is_suffix(remainder(outcome_of(r)), input@),
{
    let ghost s = input@;
    let mut matched = String::new();
    let mut rest: &'a str = input;
    let ghost mut i: int = 0;
    proof {
        lemma_name_len_bound(s);
    }
    loop
        invariant
            s == input@,
            0 <= i <= s.len(),
            rest@ == s.skip(i),
            matched@ == s.take(i),
            name_len(s) == i + name_len(rest@),
        ensures
            name_len(rest@) == 0,
        decreases rest@.len(),
    {
        match split_first_char(rest) {
            Some((c, head, next)) => {
                if !name_char(c) {
                    break ;
                }
                proof {
                    assert(next@ =~= s.skip(i + 1));
                    assert(s.take(i + 1) =~= s.take(i) + head@);
                    i = i + 1;
                }
                matched.append(head);
                rest = next;
            },
            None => {
                break ;
            },
        }
    }
    assert(rest@ =~= s.subrange(s.len() - rest@.len(), s.len() as int));
    Ok((rest, matched))
}

/// `?` and the name of the process to run on success.
pub type Onsucceed = Right<WhitespaceWrap<Literal>, ProcessName, ()>;

/// `:` and the name of the process to run on failure.
pub type Onfail = Right<WhitespaceWrap<Literal>, ProcessName, ()>;

/// The optional success target and then the optional failure target.
pub type ProcessPredicate = Pair<Optional<Onsucceed>, Optional<Onfail>>;

/// A name, its targets and the terminating `;`, with whitespace skipped around.
pub type PlainProcess = WhitespaceWrap<
    Left<Pair<ProcessName, ProcessPredicate>, WhitespaceWrap<Literal>, ()>,
>;

/// A plain process wrapped in parentheses.
pub type SilentProcess = Right<
    WhitespaceWrap<Literal>,
    Left<PlainProcess, WhitespaceWrap<Literal>, ()>,
    (),
>;

/// Any number of whitespace-wrapped `@name` tokens, with whitespace allowed
/// after the `@`.
pub type LogMonitors = N<WhitespaceWrap<Right<WhitespaceWrap<Literal>, ProcessName, ()>>>;

/// The success-target parser, as a value.
pub open spec fn spec_onsucceed() -> Onsucceed {
    Right {
        first: spec_whitespace_wrap(Literal { expected: "?" }),
        second: ProcessName,
        discarded: PhantomData,
    }
}

/// The failure-target parser, as a value.
pub open spec fn spec_onfail() -> Onfail {
    Right {
        first: spec_whitespace_wrap(Literal { expected: ":" }),
        second: ProcessName,
        discarded: PhantomData,
    }
}

/// The parser of both optional targets, as a value.
pub open spec fn spec_process_predicate() -> ProcessPredicate {
    Pair { first: Optional { parser: spec_onsucceed() }, second: Optional { parser: spec_onfail() } }
}

/// The plain process parser, as a value.
pub open spec fn spec_plain_process() -> PlainProcess {
    spec_whitespace_wrap(
        Left {
            first: Pair { first: ProcessName, second: spec_process_predicate() },
            second: spec_whitespace_wrap(Literal { expected: ";" }),
            discarded: PhantomData,
        },
    )
}

/// The silent process parser, as a value.
pub open spec fn spec_silent_process() -> SilentProcess {
    Right {
        first: spec_whitespace_wrap(Literal { expected: "(" }),
        second: Left {
            first: spec_plain_process(),
            second: spec_whitespace_wrap(Literal { expected: ")" }),
            discarded: PhantomData,
        },
        discarded: PhantomData,
    }
}

/// The log monitors parser, as a value.
pub open spec fn spec_log_monitors() -> LogMonitors {
    N {
        parser: spec_whitespace_wrap(
            Right {
                first: spec_whitespace_wrap(Literal { expected: "@" }),
                second: ProcessName,
                discarded: PhantomData,
            },
        ),
        start: 0,
        end: EndBound::Unbounded,
    }
}

/// `?` then a name.
fn onsucceed() -> (r: Onsucceed)
    ensures
        r == spec_onsucceed(),
{
    right(whitespace_wrap(literal("?")), ProcessName)
}

/// `:` then a name.
fn onfail() -> (r: Onfail)
    ensures
        r == spec_onfail(),
{
    right(whitespace_wrap(literal(":")), ProcessName)
}

/// The optional targets of a process.
fn process_predicate() -> (r: ProcessPredicate)
    ensures
        r == spec_process_predicate(),
{
    pair(optional(onsucceed()), optional(onfail()))
}

/// Runs `parser` and then requires a `;`, with whitespace allowed around it.
fn terminating_semicolon<A: DeepView, P: Parser<A>>(parser: P) -> (r: Left<
    P,
    WhitespaceWrap<Literal>,
    (),
>)
    ensures
        r == (Left {
            first: parser,
            second: spec_whitespace_wrap(Literal { expected: ";" }),
            discarded: PhantomData::<()>,
        }),
{
    left(parser, whitespace_wrap(literal(";")))
}

fn plain_process() -> (r: PlainProcess)
    ensures
        r == spec_plain_process(),
{
    whitespace_wrap(terminating_semicolon(pair(ProcessName, process_predicate())))
}

fn silent_process() -> (r: SilentProcess)
    ensures
        r == spec_silent_process(),
{
    right(whitespace_wrap(literal("(")), left(plain_process(), whitespace_wrap(literal(")"))))
}

/// The trailing `@name` log monitors of a process.
pub fn log_monitors() -> (r: LogMonitors)
    ensures
        r == spec_log_monitors(),
{
    n(whitespace_wrap(right(whitespace_wrap(literal("@")), ProcessName)), 0, EndBound::Unbounded)
}

/// The process described by a name and its targets, without log monitors.
pub open spec fn process_view(
    body: (Seq<char>, (Option<Seq<char>>, Option<Seq<char>>)),
    silent: bool,
) -> ProcessView {
    ProcessView {
        name: body.0,
        onsucceed: body.1.0,
        onfail: body.1.1,
        silent,
        log_monitors: Seq::empty(),
    }
}

/// A process up to its terminating `;`: silent where wrapped in parentheses,
/// plain otherwise.
pub struct ProcessWithoutLogMonitors;

/// A process without its log monitors.
fn process_without_log_monitors() -> (r: ProcessWithoutLogMonitors) {
    ProcessWithoutLogMonitors
}

fn build_process(body: (String, (Option<String>, Option<String>)), silent: bool) -> (r: Process)
    ensures
        r.deep_view() == process_view(body.deep_view(), silent),
{
    let (name, (onsucceed, onfail)) = body;
    let r = Process { log_monitors: Vec::new(), name, onfail, onsucceed, silent };
    assert(r.log_monitors.deep_view() =~= Seq::<Seq<char>>::empty());
    r
}

impl Parser<Process> for ProcessWithoutLogMonitors {
    open spec fn wf(&self) -> bool {
        true
    }

    open spec fn spec_parse(&self, input: Seq<char>) -> Outcome<ProcessView> {
        match spec_silent_process().spec_parse(input) {
            Ok((rest, body)) => Ok((rest, process_view(body, true))),
            Err(_) => match spec_plain_process().spec_parse(input) {
                Ok((rest, body)) => Ok((rest, process_view(body, false))),
                Err(at) => Err(at),
            },
        }
    }

    fn parse<'a>(&self, input: &'a str) -> (r: ParseResult<'a, Process>) {
        match silent_process().parse(input) {
            Ok((rest, body)) => Ok((rest, build_process(body, true))),
            Err(_) => match plain_process().parse(input) {
                Ok((rest, body)) => Ok((rest, build_process(body, false))),
                Err(at) => Err(at),
            },
        }
    }
}

/// One process followed by its log monitors, as a list of that one process.
pub struct SingleProcess;

/// A single process with its log monitors.
pub fn single_process() -> (r: SingleProcess) {
    SingleProcess
}

/// `p` with its log monitors set to `monitors`.
pub open spec fn with_monitors(p: ProcessView, monitors: Seq<Seq<char>>) -> ProcessView {
    ProcessView { log_monitors: monitors, ..p }
}

impl Parser<Vec<Process>> for SingleProcess {
    open spec fn wf(&self) -> bool {
        true
    }

    open spec fn spec_parse(&self, input: Seq<char>) -> Outcome<Seq<ProcessView>> {
        match pair_outcome(ProcessWithoutLogMonitors, spec_log_monitors(), input) {
            Ok((rest, (p, monitors))) => Ok((rest, seq![with_monitors(p, monitors)])),
            Err(at) => Err(at),
        }
    }

    fn parse<'a>(&self, input: &'a str) -> (r: ParseResult<'a, Vec<Process>>) {
        match pair(process_without_log_monitors(), log_monitors()).parse(input) {
            Ok((rest, (process, monitors))) => {
                let mut process = process;
                process.log_monitors = monitors;
                let r = vec![process];
                assert(r.deep_view() =~= seq![process.deep_view()]);
                Ok((rest, r))
            },
            Err(at) => Err(at),
        }
    }
}

/// `[`, two or more single processes, `]`.
pub type BracketedProcesses = Right<
    WhitespaceWrap<Literal>,
    Left<N<SingleProcess>, WhitespaceWrap<Literal>, ()>,
    (),
>;

/// The bracketed group parser, as a value.
pub open spec fn spec_bracketed_processes() -> BracketedProcesses {
    Right {
        first: spec_whitespace_wrap(Literal { expected: "[" }),
        second: Left {
            first: N { parser: SingleProcess, start: 2, end: EndBound::Unbounded },
            second: spec_whitespace_wrap(Literal { expected: "]" }),
            discarded: PhantomData,
        },
        discarded: PhantomData,
    }
}

/// A bracketed group of at least two processes, meant to run concurrently.
pub struct ConcurrentProcesses;

/// A bracketed group of concurrent processes.
pub fn concurrent_processes() -> (r: ConcurrentProcesses) {
    ConcurrentProcesses
}

fn flatten_processes(groups: Vec<Vec<Process>>) -> (r: Vec<Process>)
    ensures
        r.deep_view() == groups.deep_view().flatten(),
{
    let ghost all = groups.deep_view();
    let mut groups = groups;
    let mut r: Vec<Process> = Vec::new();
    assert(r.deep_view() + all.flatten() =~= all.flatten());
    while groups.len() > 0
        invariant
            r.deep_view() + groups.deep_view().flatten() == all.flatten(),
        decreases groups.len(),
    {
        let ghost before = groups.deep_view();
        let ghost done = r.deep_view();
        let mut group = groups.remove(0);
        proof {
            assert(groups.deep_view() =~= before.drop_first());
            assert(before.flatten() == before.first() + before.drop_first().flatten());
        }
        r.append(&mut group);
        proof {
            assert(r.deep_view() =~= done + before.first());
            assert(done + (before.first() + before.drop_first().flatten()) =~= (done
                + before.first()) + before.drop_first().flatten());
        }
    }
    assert(groups.deep_view().flatten() =~= Seq::<ProcessView>::empty());
    assert(r.deep_view() + Seq::<ProcessView>::empty() =~= r.deep_view());
    r
}

impl Parser<Vec<Process>> for ConcurrentProcesses {
    open spec fn wf(&self) -> bool {
        true
    }

    open spec fn spec_parse(&self, input: Seq<char>) -> Outcome<Seq<ProcessView>> {
        match spec_bracketed_processes().spec_parse(input) {
            Ok((rest, groups)) => Ok((rest, groups.flatten())),
            Err(at) => Err(at),
        }
    }

    fn parse<'a>(&self, input: &'a str) -> (r: ParseResult<'a, Vec<Process>>) {
        let group = right(
            whitespace_wrap(literal("[")),
            left(n(SingleProcess, 2, EndBound::Unbounded), whitespace_wrap(literal("]"))),
        );
        match group.parse(input) {
            Ok((rest, groups)) => Ok((rest, flatten_processes(groups))),
            Err(at) => Err(at),
        }
    }
}

} // verus!

//! Writing a job tree out as text and reading it back.
//!
//! The text written is compact: a process is its name, `?` and the success
//! target, `:` and the failure target, each where present, then `;`; in
//! parentheses where silent; then `@`, the name and a space for each log
//! monitor. A task of one process is that process; a larger one lists its
//! processes in brackets; a job is its tasks one after another.
use crate::combinators::{repeat_outcome, Literal, UNBOUNDED_REPETITIONS};
use crate::job::spec_tasks;
use crate::laws::{
    all_white, described_process, ends_process, is_punctuation, lemma_literal_match,
    lemma_literal_mismatch, lemma_literal_texts, lemma_name_start, lemma_process_name,
    lemma_single_process_fails_on_close, lemma_target_none, lemma_whitespace_wrap,
    lemma_separators_distinct, lemma_whitespace_wrap_fails, no_leading_name_char, no_leading_white,
    is_valid_name,
    target_parser,
};
use crate::parser::Parser;
use crate::process::{
    process_view, spec_log_monitors, spec_onfail, spec_onsucceed, spec_plain_process,
    spec_silent_process, ProcessName, ProcessView, ProcessWithoutLogMonitors, SingleProcess,
};
use crate::task::TaskParser;
use crate::text::{is_alphanumeric_char, is_name_char, is_white_space};
use crate::whitespace::{spec_space0, spec_whitespace_wrap};
use crate::combinators::{Optional, Right};
use core::marker::PhantomData;
use vstd::prelude::*;

verus! {

/// A sequence of name characters, possibly empty: what a process name reads.
pub open spec fn is_name(n: Seq<char>) -> bool {
    forall|i: int| 0 <= i < n.len() ==> #[trigger] is_name_char(n[i])
}

/// An absent target, or a name.
pub open spec fn is_name_target(target: Option<Seq<char>>) -> bool {
    match target {
        Some(n) => is_name(n),
        None => true,
    }
}

/// The compact text of an optional target: the marker and the name.
pub open spec fn compact_target(marker: char, target: Option<Seq<char>>) -> Seq<char> {
    match target {
        Some(n) => seq![marker] + n,
        None => Seq::empty(),
    }
}

/// The compact text of a process up to its `;`.
pub open spec fn compact_plain_text(
    name: Seq<char>,
    onsucceed: Option<Seq<char>>,
    onfail: Option<Seq<char>>,
) -> Seq<char> {
    name + compact_target('?', onsucceed) + compact_target(':', onfail) + seq![';']
}

/// The compact text of a process without its log monitors.
pub open spec fn compact_process_text(
    name: Seq<char>,
    onsucceed: Option<Seq<char>>,
    onfail: Option<Seq<char>>,
    silent: bool,
) -> Seq<char> {
    if silent {
        seq!['('] + compact_plain_text(name, onsucceed, onfail) + seq![')']
    } else {
        compact_plain_text(name, onsucceed, onfail)
    }
}

proof fn lemma_name_char_not_white(c: char)
    requires
        is_name_char(c),
    ensures
        !is_white_space(c),
        !is_punctuation(c),
{
    lemma_separators_distinct();
    if is_alphanumeric_char(c) {
        assert(!is_white_space(c));
    }
}

proof fn lemma_compact_target_some(lit: Literal, marker: char, n: Seq<char>, t: Seq<char>)
    requires
        is_punctuation(marker),
        lit.expected@ == seq![marker],
        is_name(n),
        no_leading_name_char(t),
        no_leading_white(t),
    ensures
        target_parser(lit).spec_parse(seq![marker] + n + t) == Ok::<_, Seq<char>>((t, Some(n))),
{
    lemma_separators_distinct();
    let rest = n + t;
    let e = Seq::<char>::empty();
    assert(all_white(e));
    if n.len() > 0 {
        lemma_name_char_not_white(n[0]);
        assert(rest[0] == n[0]);
    } else {
        assert(rest =~= t);
    }
    lemma_literal_match(lit, rest);
    assert(seq![marker] + e + rest =~= lit.expected@ + rest);
    assert(e + rest =~= rest);
    lemma_whitespace_wrap(lit, e, seq![marker], e, rest, ());
    assert(seq![marker] + n + t =~= e + seq![marker] + e + rest);
    lemma_process_name(n, t);
}

proof fn lemma_compact_plain_start(
    name: Seq<char>,
    onsucceed: Option<Seq<char>>,
    onfail: Option<Seq<char>>,
)
    requires
        is_name(name),
    ensures
        ({
            let c = compact_plain_text(name, onsucceed, onfail)[0];
            !is_white_space(c) && c != '(' && c != '@' && c != '[' && c != ']'
        }),
{
    lemma_separators_distinct();
    let text = compact_plain_text(name, onsucceed, onfail);
    assert(is_punctuation('?') && is_punctuation(':') && is_punctuation(';'));
    if name.len() > 0 {
        assert(text[0] == name[0]);
        lemma_name_char_not_white(name[0]);
        assert(is_punctuation('(') && is_punctuation('@') && is_punctuation('[') && is_punctuation(
            ']',
        ));
    } else {
        assert(text[0] == '?' || text[0] == ':' || text[0] == ';');
    }
}

/// A compact process text is read back with its fields, before anything
/// that does not begin with whitespace.
#[verifier::rlimit(60)]
#[verifier::spinoff_prover]
pub proof fn lemma_compact_plain(
    name: Seq<char>,
    onsucceed: Option<Seq<char>>,
    onfail: Option<Seq<char>>,
    t: Seq<char>,
)
    requires
        is_name(name),
        is_name_target(onsucceed),
        is_name_target(onfail),
        no_leading_white(t),
    ensures
        spec_plain_process().spec_parse(compact_plain_text(name, onsucceed, onfail) + t) == Ok::<
            _,
            Seq<char>,
        >((t, (name, (onsucceed, onfail)))),
{
    lemma_separators_distinct();
    lemma_literal_texts();
    let e = Seq::<char>::empty();
    assert(all_white(e));
    let semi_t = seq![';'] + t;
    let after_s = compact_target(':', onfail) + semi_t;
    let after_name = compact_target('?', onsucceed) + after_s;
    let text = compact_plain_text(name, onsucceed, onfail);
    assert(text + t =~= name + after_name);
    assert(is_punctuation(';') && is_punctuation('?') && is_punctuation(':'));
    assert(!is_name_char(';') && !is_name_char('?') && !is_name_char(':'));
    match onfail {
        Some(f) => {
            assert(after_s =~= seq![':'] + f + semi_t);
            lemma_compact_target_some(Literal { expected: ":" }, ':', f, semi_t);
        },
        None => {
            assert(after_s =~= e + semi_t);
            lemma_target_none(Literal { expected: ":" }, ':', e, semi_t);
        },
    }
    assert(target_parser(Literal { expected: ":" }) == (Optional { parser: spec_onfail() }));
    assert(target_parser(Literal { expected: "?" }) == (Optional { parser: spec_onsucceed() }));
    assert(after_s[0] == ':' || after_s[0] == ';');
    match onsucceed {
        Some(s) => {
            assert(after_name =~= seq!['?'] + s + after_s);
            lemma_compact_target_some(Literal { expected: "?" }, '?', s, after_s);
        },
        None => {
            assert(after_name =~= e + after_s);
            lemma_target_none(Literal { expected: "?" }, '?', e, after_s);
        },
    }
    assert(after_name[0] == '?' || after_name[0] == ':' || after_name[0] == ';');
    lemma_process_name(name, after_name);
    lemma_literal_match(Literal { expected: ";" }, t);
    let inner = spec_plain_process().second.first;
    lemma_compact_plain_start(name, onsucceed, onfail);
    assert(text + e + t =~= text + t);
    assert(e + t =~= t);
    lemma_whitespace_wrap(inner, e, text, e, t, (name, (onsucceed, onfail)));
    assert(e + text + e + t =~= text + t);
}

/// A compact process text, in parentheses or not, is read back as that
/// process, before anything that does not begin with whitespace.
#[verifier::rlimit(60)]
#[verifier::spinoff_prover]
pub proof fn lemma_compact_process(
    name: Seq<char>,
    onsucceed: Option<Seq<char>>,
    onfail: Option<Seq<char>>,
    silent: bool,
    t: Seq<char>,
)
    requires
        is_name(name),
        is_name_target(onsucceed),
        is_name_target(onfail),
        no_leading_white(t),
    ensures
        ProcessWithoutLogMonitors.spec_parse(compact_process_text(name, onsucceed, onfail, silent)
            + t) == Ok::<_, Seq<char>>((t, described_process(name, onsucceed, onfail, silent))),
{
    lemma_separators_distinct();
    lemma_literal_texts();
    let e = Seq::<char>::empty();
    assert(all_white(e));
    let text = compact_plain_text(name, onsucceed, onfail);
    let body = (name, (onsucceed, onfail));
    lemma_compact_plain_start(name, onsucceed, onfail);
    if silent {
        let close_t = seq![')'] + t;
        let rest = text + close_t;
        assert(is_punctuation(')') && is_punctuation('('));
        assert(rest[0] == text[0]);
        lemma_literal_match(Literal { expected: "(" }, rest);
        assert(seq!['('] + e + rest =~= seq!['('] + rest);
        assert(e + rest =~= rest);
        lemma_whitespace_wrap(Literal { expected: "(" }, e, seq!['('], e, rest, ());
        lemma_compact_plain(name, onsucceed, onfail, close_t);
        lemma_literal_match(Literal { expected: ")" }, t);
        assert(seq![')'] + e + t =~= close_t);
        assert(e + t =~= t);
        lemma_whitespace_wrap(Literal { expected: ")" }, e, seq![')'], e, t, ());
        assert(e + seq![')'] + e + t =~= close_t);
        assert(e + seq!['('] + e + rest =~= seq!['('] + text + seq![')'] + t);
        assert(process_view(body, true) == described_process(name, onsucceed, onfail, true));
    } else {
        assert((text + t)[0] == text[0]);
        lemma_literal_mismatch(Literal { expected: "(" }, text + t);
        assert(e + (text + t) =~= text + t);
        lemma_whitespace_wrap_fails(Literal { expected: "(" }, e, text + t);
        lemma_compact_plain(name, onsucceed, onfail, t);
        assert(process_view(body, false) == described_process(name, onsucceed, onfail, false));
    }
}

/// The text of log monitors: each as `@`, its name and a space.
pub open spec fn monitors_text(monitors: Seq<Seq<char>>) -> Seq<char>
    decreases monitors.len(),
{
    if monitors.len() == 0 {
        Seq::empty()
    } else {
        seq!['@'] + monitors[0] + seq![' '] + monitors_text(monitors.drop_first())
    }
}

/// Every element of `names` is a non-empty name.
pub open spec fn all_valid_names(names: Seq<Seq<char>>) -> bool {
    forall|i: int| 0 <= i < names.len() ==> is_valid_name(#[trigger] names[i])
}

/// Every log monitor of `p` has a non-empty name.
pub open spec fn named_monitors(p: ProcessView) -> bool {
    all_valid_names(p.log_monitors)
}

/// Every process of `processes` has log monitors with non-empty names.
pub open spec fn all_named_monitors(processes: Seq<ProcessView>) -> bool {
    forall|i: int| 0 <= i < processes.len() ==> named_monitors(#[trigger] processes[i])
}

/// Every log monitor of a job tree has a non-empty name.
pub open spec fn job_named_monitors(tasks: Seq<Seq<ProcessView>>) -> bool {
    forall|i: int| 0 <= i < tasks.len() ==> all_named_monitors(#[trigger] tasks[i])
}

/// Every element of `names` is a name.
pub open spec fn all_names(names: Seq<Seq<char>>) -> bool {
    forall|i: int| 0 <= i < names.len() ==> is_name(#[trigger] names[i])
}

#[verifier::rlimit(60)]
#[verifier::spinoff_prover]
proof fn lemma_log_monitors(monitors: Seq<Seq<char>>, t: Seq<char>, done: nat)
    requires
        all_valid_names(monitors),
        done + monitors.len() <= UNBOUNDED_REPETITIONS,
        ends_process(t),
    ensures
        repeat_outcome(
            spec_log_monitors().parser,
            monitors_text(monitors) + t,
            0,
            UNBOUNDED_REPETITIONS as nat,
            done,
        ) == Ok::<_, Seq<char>>((t, monitors)),
    decreases monitors.len(),
{
    lemma_separators_distinct();
    lemma_literal_texts();
    let e = Seq::<char>::empty();
    assert(all_white(e));
    let inner = Right {
        first: spec_whitespace_wrap(Literal { expected: "@" }),
        second: ProcessName,
        discarded: PhantomData::<()>,
    };
    assert(spec_log_monitors().parser == spec_whitespace_wrap(inner));
    if monitors.len() == 0 {
        assert(monitors_text(monitors) + t =~= t);
        assert(monitors =~= Seq::<Seq<char>>::empty());
        if done < UNBOUNDED_REPETITIONS {
            assert(e + t =~= t);
            lemma_literal_mismatch(Literal { expected: "@" }, t);
            lemma_whitespace_wrap_fails(Literal { expected: "@" }, e, t);
            lemma_whitespace_wrap_fails(inner, e, t);
        }
    } else {
        let m = monitors[0];
        let tail = monitors.drop_first();
        let rest = monitors_text(tail) + t;
        assert(all_valid_names(tail)) by {
            assert forall|i: int| 0 <= i < tail.len() implies is_valid_name(#[trigger] tail[i]) by {
                assert(tail[i] == monitors[i + 1]);
            }
        }
        assert(is_valid_name(m));
        lemma_name_start(m);
        lemma_log_monitors(tail, t, done + 1);
        assert(is_punctuation('@'));
        if tail.len() > 0 {
            assert(rest[0] == '@');
        } else {
            assert(rest =~= t);
        }
        assert(no_leading_white(rest));
        assert(!is_name_char(' '));
        lemma_process_name(m, seq![' '] + rest);
        let after = m + (seq![' '] + rest);
        assert(after[0] == m[0]);
        lemma_literal_match(Literal { expected: "@" }, after);
        assert(seq!['@'] + e + after =~= "@"@ + after);
        assert(e + after =~= after);
        lemma_whitespace_wrap(Literal { expected: "@" }, e, seq!['@'], e, after, ());
        assert(e + seq!['@'] + e + after =~= seq!['@'] + m + seq![' '] + rest);
        assert(seq!['@'] + m + seq![' '] + rest =~= seq!['@'] + after);
        assert(all_white(seq![' ']));
        assert((seq!['@'] + m)[0] == '@');
        lemma_whitespace_wrap(inner, e, seq!['@'] + m, seq![' '], rest, m);
        assert(monitors_text(monitors) + t =~= e + (seq!['@'] + m) + seq![' '] + rest);
        assert(seq![m] + tail =~= monitors);
    }
}

/// A process that can be written out and read back: its names are made of
/// name characters, and it has no more log monitors than a repetition
/// collects.
pub open spec fn is_valid_process(p: ProcessView) -> bool {
    &&& is_name(p.name)
    &&& is_name_target(p.onsucceed)
    &&& is_name_target(p.onfail)
    &&& all_names(p.log_monitors)
    &&& p.log_monitors.len() <= UNBOUNDED_REPETITIONS
}

/// The text of a process with its log monitors.
pub open spec fn full_process_text(p: ProcessView) -> Seq<char> {
    compact_process_text(p.name, p.onsucceed, p.onfail, p.silent) + monitors_text(p.log_monitors)
}

proof fn lemma_full_process_start(p: ProcessView)
    requires
        is_valid_process(p),
    ensures
        full_process_text(p).len() > 0,
        !is_white_space(full_process_text(p)[0]),
        full_process_text(p)[0] != '@',
        full_process_text(p)[0] != '[',
        full_process_text(p)[0] != ']',
{
    lemma_separators_distinct();
    lemma_compact_plain_start(p.name, p.onsucceed, p.onfail);
    let text = full_process_text(p);
    if p.silent {
        assert(text[0] == '(');
        assert(is_punctuation('('));
    } else {
        assert(text[0] == compact_plain_text(p.name, p.onsucceed, p.onfail)[0]);
    }
}

/// A process with its log monitors is read back as that process.
#[verifier::rlimit(60)]
#[verifier::spinoff_prover]
pub proof fn lemma_full_process(p: ProcessView, t: Seq<char>)
    requires
        is_valid_process(p),
        named_monitors(p),
        ends_process(t),
    ensures
        SingleProcess.spec_parse(full_process_text(p) + t) == Ok::<_, Seq<char>>((t, seq![p])),
{
    lemma_separators_distinct();
    let mt = monitors_text(p.log_monitors) + t;
    assert(is_punctuation('@'));
    if p.log_monitors.len() > 0 {
        assert(mt[0] == '@');
    } else {
        assert(mt =~= t);
    }
    lemma_compact_process(p.name, p.onsucceed, p.onfail, p.silent, mt);
    lemma_log_monitors(p.log_monitors, t, 0);
    assert(full_process_text(p) + t =~= compact_process_text(p.name, p.onsucceed, p.onfail, p.silent)
        + mt);
    let d = described_process(p.name, p.onsucceed, p.onfail, p.silent);
    assert(crate::process::with_monitors(d, p.log_monitors) == p);
}

/// The texts of processes, one after another.
pub open spec fn processes_text(processes: Seq<ProcessView>) -> Seq<char>
    decreases processes.len(),
{
    if processes.len() == 0 {
        Seq::empty()
    } else {
        full_process_text(processes[0]) + processes_text(processes.drop_first())
    }
}

/// Each process alone in a list of its own.
pub open spec fn singletons(processes: Seq<ProcessView>) -> Seq<Seq<ProcessView>>
    decreases processes.len(),
{
    if processes.len() == 0 {
        Seq::empty()
    } else {
        seq![seq![processes[0]]] + singletons(processes.drop_first())
    }
}

pub proof fn lemma_flatten_singletons(processes: Seq<ProcessView>)
    ensures
        singletons(processes).flatten() == processes,
    decreases processes.len(),
{
    if processes.len() > 0 {
        let g = singletons(processes);
        lemma_flatten_singletons(processes.drop_first());
        assert(g.drop_first() =~= singletons(processes.drop_first()));
        assert(g.first() == seq![processes[0]]);
        assert(seq![processes[0]] + processes.drop_first() =~= processes);
    } else {
        assert(singletons(processes).flatten() =~= processes);
    }
}

/// Every process of `processes` is valid.
pub open spec fn all_valid_processes(processes: Seq<ProcessView>) -> bool {
    forall|i: int| 0 <= i < processes.len() ==> is_valid_process(#[trigger] processes[i])
}

proof fn lemma_processes_start(processes: Seq<ProcessView>, t: Seq<char>)
    requires
        all_valid_processes(processes),
        all_named_monitors(processes),
        ends_process(t),
    ensures
        ends_process(processes_text(processes) + t),
        processes.len() > 0 ==> (processes_text(processes) + t)[0] == full_process_text(
            processes[0],
        )[0],
{
    lemma_separators_distinct();
    if processes.len() > 0 {
        assert(is_valid_process(processes[0]));
        lemma_full_process_start(processes[0]);
        assert(is_punctuation('@'));
    } else {
        assert(processes_text(processes) + t =~= t);
    }
}

#[verifier::rlimit(60)]
#[verifier::spinoff_prover]
proof fn lemma_group_members(processes: Seq<ProcessView>, t: Seq<char>, done: nat)
    requires
        all_valid_processes(processes),
        all_named_monitors(processes),
        t.len() > 0,
        t[0] == ']',
        done + processes.len() <= UNBOUNDED_REPETITIONS,
        done + processes.len() >= 2,
    ensures
        repeat_outcome(
            SingleProcess,
            processes_text(processes) + t,
            2,
            UNBOUNDED_REPETITIONS as nat,
            done,
        ) == Ok::<_, Seq<char>>((t, singletons(processes))),
    decreases processes.len(),
{
    lemma_separators_distinct();
    if processes.len() == 0 {
        assert(processes_text(processes) + t =~= t);
        lemma_single_process_fails_on_close(t);
    } else {
        let tail = processes.drop_first();
        assert(all_valid_processes(tail)) by {
            assert forall|i: int| 0 <= i < tail.len() implies is_valid_process(#[trigger] tail[i]) by {
                assert(tail[i] == processes[i + 1]);
            }
        }
        assert(all_named_monitors(tail)) by {
            assert forall|i: int| 0 <= i < tail.len() implies named_monitors(#[trigger] tail[i]) by {
                assert(tail[i] == processes[i + 1]);
            }
        }
        assert(is_valid_process(processes[0]));
        assert(named_monitors(processes[0]));
        assert(is_punctuation(']'));
        assert(ends_process(t));
        lemma_processes_start(tail, t);
        let rest = processes_text(tail) + t;
        lemma_full_process(processes[0], rest);
        assert(processes_text(processes) + t =~= full_process_text(processes[0]) + rest);
        lemma_group_members(tail, t, done + 1);
    }
}

/// A task that can be written out and read back: one process, or a group
/// of no more processes than a repetition collects, all valid.
pub open spec fn is_valid_task(processes: Seq<ProcessView>) -> bool {
    &&& processes.len() >= 1
    &&& processes.len() <= UNBOUNDED_REPETITIONS
    &&& all_valid_processes(processes)
}

/// The text of a task: its one process, or its processes in brackets.
pub open spec fn task_text(processes: Seq<ProcessView>) -> Seq<char> {
    if processes.len() == 1 {
        full_process_text(processes[0])
    } else {
        seq!['['] + processes_text(processes) + seq![']']
    }
}

/// A task is read back as its processes.
#[verifier::rlimit(60)]
#[verifier::spinoff_prover]
pub proof fn lemma_task(processes: Seq<ProcessView>, t: Seq<char>)
    requires
        is_valid_task(processes),
        all_named_monitors(processes),
        ends_process(t),
    ensures
        TaskParser.spec_parse(task_text(processes) + t) == Ok::<_, Seq<char>>((t, processes)),
{
    lemma_separators_distinct();
    lemma_literal_texts();
    let e = Seq::<char>::empty();
    assert(all_white(e));
    assert(is_punctuation('['));
    assert(is_punctuation(']'));
    assert(is_valid_process(processes[0]));
    assert(named_monitors(processes[0]));
    lemma_full_process_start(processes[0]);
    if processes.len() == 1 {
        let text = full_process_text(processes[0]) + t;
        assert(text[0] == full_process_text(processes[0])[0]);
        lemma_literal_mismatch(Literal { expected: "[" }, text);
        assert(e + text =~= text);
        lemma_whitespace_wrap_fails(Literal { expected: "[" }, e, text);
        lemma_full_process(processes[0], t);
        assert(seq![processes[0]] =~= processes);
    } else {
        let close_t = seq![']'] + t;
        let rest = processes_text(processes) + close_t;
        lemma_processes_start(processes, close_t);
        lemma_literal_match(Literal { expected: "[" }, rest);
        assert(!is_white_space(seq!['['][0]));
        assert(seq!['['] + e + rest =~= seq!['['] + rest);
        assert(e + rest =~= rest);
        lemma_whitespace_wrap(Literal { expected: "[" }, e, seq!['['], e, rest, ());
        lemma_group_members(processes, close_t, 0);
        lemma_literal_match(Literal { expected: "]" }, t);
        assert(!is_white_space(seq![']'][0]));
        assert(seq![']'] + e + t =~= close_t);
        assert(e + t =~= t);
        lemma_whitespace_wrap(Literal { expected: "]" }, e, seq![']'], e, t, ());
        assert(e + seq![']'] + e + t =~= close_t);
        lemma_flatten_singletons(processes);
        assert(task_text(processes) + t =~= e + seq!['['] + e + rest);
    }
}

/// The texts of tasks, one after another.
pub open spec fn job_text(tasks: Seq<Seq<ProcessView>>) -> Seq<char>
    decreases tasks.len(),
{
    if tasks.len() == 0 {
        Seq::empty()
    } else {
        task_text(tasks[0]) + job_text(tasks.drop_first())
    }
}

/// Every task of `tasks` is valid.
pub open spec fn all_valid_tasks(tasks: Seq<Seq<ProcessView>>) -> bool {
    forall|i: int| 0 <= i < tasks.len() ==> is_valid_task(#[trigger] tasks[i])
}

/// A job tree that can be written out and read back: one or more valid
/// tasks, no more than a repetition collects.
pub open spec fn is_valid_job(tasks: Seq<Seq<ProcessView>>) -> bool {
    &&& tasks.len() >= 1
    &&& tasks.len() <= UNBOUNDED_REPETITIONS
    &&& all_valid_tasks(tasks)
}

proof fn lemma_task_start(processes: Seq<ProcessView>)
    requires
        is_valid_task(processes),
    ensures
        task_text(processes).len() > 0,
        !is_white_space(task_text(processes)[0]),
        task_text(processes)[0] != '@',
{
    lemma_separators_distinct();
    assert(is_valid_process(processes[0]));
    lemma_full_process_start(processes[0]);
    assert(is_punctuation('['));
    assert(is_punctuation('@'));
}

#[verifier::rlimit(60)]
#[verifier::spinoff_prover]
proof fn lemma_tasks(tasks: Seq<Seq<ProcessView>>, done: nat)
    requires
        all_valid_tasks(tasks),
        job_named_monitors(tasks),
        done + tasks.len() <= UNBOUNDED_REPETITIONS,
        done + tasks.len() >= 1,
    ensures
        repeat_outcome(spec_tasks().parser, job_text(tasks), 1, UNBOUNDED_REPETITIONS as nat, done)
            == Ok::<_, Seq<char>>((Seq::<char>::empty(), tasks)),
    decreases tasks.len(),
{
    lemma_separators_distinct();
    lemma_literal_texts();
    let e = Seq::<char>::empty();
    assert(all_white(e));
    assert(spec_tasks().parser == spec_whitespace_wrap(TaskParser));
    if tasks.len() == 0 {
        assert(job_text(tasks) =~= e);
        assert(tasks =~= Seq::<Seq<ProcessView>>::empty());
        if done < UNBOUNDED_REPETITIONS {
            lemma_literal_mismatch(Literal { expected: "[" }, e);
            assert(e + e =~= e);
            lemma_whitespace_wrap_fails(Literal { expected: "[" }, e, e);
            lemma_single_process_fails_on_close(e);
            lemma_whitespace_wrap_fails(TaskParser, e, e);
        }
    } else {
        let tail = tasks.drop_first();
        assert(all_valid_tasks(tail)) by {
            assert forall|i: int| 0 <= i < tail.len() implies is_valid_task(#[trigger] tail[i]) by {
                assert(tail[i] == tasks[i + 1]);
            }
        }
        assert(job_named_monitors(tail)) by {
            assert forall|i: int| 0 <= i < tail.len() implies all_named_monitors(
                #[trigger] tail[i],
            ) by {
                assert(tail[i] == tasks[i + 1]);
            }
        }
        assert(is_valid_task(tasks[0]));
        assert(all_named_monitors(tasks[0]));
        let rest = job_text(tail);
        if tail.len() > 0 {
            assert(is_valid_task(tail[0]));
            lemma_task_start(tail[0]);
            assert(rest[0] == task_text(tail[0])[0]);
        } else {
            assert(rest =~= e);
        }
        lemma_task(tasks[0], rest);
        lemma_task_start(tasks[0]);
        assert(task_text(tasks[0]) + e + rest =~= task_text(tasks[0]) + rest);
        assert(e + rest =~= rest);
        lemma_whitespace_wrap(TaskParser, e, task_text(tasks[0]), e, rest, tasks[0]);
        assert(e + task_text(tasks[0]) + e + rest =~= job_text(tasks));
        lemma_tasks(tail, done + 1);
        assert(seq![tasks[0]] + tail =~= tasks);
    }
}

/// Writing a job tree out as text and parsing that text gives the tree back.
pub proof fn lemma_round_trip(tasks: Seq<Seq<ProcessView>>)
    requires
        is_valid_job(tasks),
        job_named_monitors(tasks),
    ensures
        crate::job_result(job_text(tasks)) == Ok::<_, ((nat, nat), Seq<char>)>(tasks),
{
    lemma_separators_distinct();
    lemma_tasks(tasks, 0);
}

/// Log monitors written after a process's `;` come back in the order they
/// were written, duplicates kept; with none written the list is empty.
pub proof fn lemma_monitors_in_order(name: Seq<char>, monitors: Seq<Seq<char>>)
    requires
        is_name(name),
        all_valid_names(monitors),
        monitors.len() <= UNBOUNDED_REPETITIONS,
    ensures
        SingleProcess.spec_parse(name + seq![';'] + monitors_text(monitors)) == Ok::<
            _,
            Seq<char>,
        >(
            (
                Seq::<char>::empty(),
                seq![
                    ProcessView {
                        name,
                        onsucceed: None,
                        onfail: None,
                        silent: false,
                        log_monitors: monitors,
                    },
                ],
            ),
        ),
{
    lemma_separators_distinct();
    let p = ProcessView { name, onsucceed: None, onfail: None, silent: false, log_monitors: monitors };
    let e = Seq::<char>::empty();
    assert(all_names(monitors)) by {
        assert forall|i: int| 0 <= i < monitors.len() implies is_name(#[trigger] monitors[i]) by {
            assert(is_valid_name(monitors[i]));
        }
    }
    lemma_full_process(p, e);
    assert(compact_plain_text(name, None, None) =~= name + seq![';']);
    assert(full_process_text(p) + e =~= name + seq![';'] + monitors_text(monitors));
}

/// What a repetition collects: values that `q` holds of, no more than its
/// limit, and at least `start` where the limit allows that many.
pub proof fn lemma_repeat_elements<A: DeepView, P: Parser<A>>(
    p: P,
    q: spec_fn(A::V) -> bool,
    s: Seq<char>,
    start: nat,
    limit: nat,
    done: nat,
)
    requires
        done <= limit,
        forall|x: Seq<char>|
            match #[trigger] p.spec_parse(x) {
                Ok((_, v)) => q(v),
                Err(_) => true,
            },
    ensures
        match repeat_outcome(p, s, start, limit, done) {
            Ok((_, values)) => {
                &&& forall|i: int| 0 <= i < values.len() ==> q(#[trigger] values[i])
                &&& done + values.len() <= limit
                &&& start <= limit ==> done + values.len() >= start
            },
            Err(_) => true,
        },
    decreases limit - done,
{
    if done < limit {
        let o = p.spec_parse(s);
        match o {
            Ok((rest, v)) => {
                lemma_repeat_elements(p, q, rest, start, limit, done + 1);
                match repeat_outcome(p, rest, start, limit, done + 1) {
                    Ok((_, tail)) => {
                        let values = seq![v] + tail;
                        assert forall|i: int| 0 <= i < values.len() implies q(
                            #[trigger] values[i],
                        ) by {
                            if i > 0 {
                                assert(values[i] == tail[i - 1]);
                            }
                        }
                    },
                    Err(_) => {},
                }
            },
            Err(_) => {},
        }
    }
}

proof fn lemma_name_prefix(s: Seq<char>)
    ensures
        is_name(s.take(crate::process::name_len(s) as int)),
    decreases s.len(),
{
    let k = crate::process::name_len(s);
    crate::process::lemma_name_len_bound(s);
    if s.len() > 0 && is_name_char(s[0]) {
        let rest = s.drop_first();
        lemma_name_prefix(rest);
        crate::process::lemma_name_len_bound(rest);
        assert(k == 1 + crate::process::name_len(rest));
        assert forall|i: int| 0 <= i < k implies #[trigger] is_name_char(s.take(k as int)[i]) by {
            assert(s.take(k as int)[i] == s[i]);
            if i > 0 {
                assert(s[i] == rest.take(k - 1)[i - 1]);
                assert(is_name_char(rest.take(k - 1)[i - 1]));
            }
        }
    }
}

/// A process name reads name characters only.
pub proof fn lemma_read_name(s: Seq<char>)
    ensures
        match ProcessName.spec_parse(s) {
            Ok((_, n)) => is_name(n),
            Err(_) => true,
        },
{
    lemma_name_prefix(s);
}

proof fn lemma_read_target(lit: Literal, s: Seq<char>)
    ensures
        match target_parser(lit).spec_parse(s) {
            Ok((_, t)) => is_name_target(t),
            Err(_) => true,
        },
{
    match spec_whitespace_wrap(lit).spec_parse(s) {
        Ok((rest, _)) => lemma_read_name(rest),
        Err(_) => {},
    }
}

#[verifier::rlimit(60)]
#[verifier::spinoff_prover]
proof fn lemma_read_plain(s: Seq<char>)
    ensures
        match spec_plain_process().spec_parse(s) {
            Ok((_, (n, (so, fo)))) => is_name(n) && is_name_target(so) && is_name_target(fo),
            Err(_) => true,
        },
{
    lemma_literal_texts();
    assert(target_parser(Literal { expected: ":" }) == (Optional { parser: spec_onfail() }));
    assert(target_parser(Literal { expected: "?" }) == (Optional { parser: spec_onsucceed() }));
    let wrap = spec_plain_process();
    match wrap.first.spec_parse(s) {
        Ok((r1, _)) => {
            lemma_read_name(r1);
            match ProcessName.spec_parse(r1) {
                Ok((r2, _)) => {
                    lemma_read_target(Literal { expected: "?" }, r2);
                    match target_parser(Literal { expected: "?" }).spec_parse(r2) {
                        Ok((r3, _)) => lemma_read_target(Literal { expected: ":" }, r3),
                        Err(_) => {},
                    }
                },
                Err(_) => {},
            }
        },
        Err(_) => {},
    }
}

/// A process without log monitors has names made of name characters.
pub proof fn lemma_read_process_without_log_monitors(s: Seq<char>)
    ensures
        match ProcessWithoutLogMonitors.spec_parse(s) {
            Ok((_, p)) => is_valid_process(p) && p.log_monitors.len() == 0,
            Err(_) => true,
        },
{
    lemma_read_plain(s);
    let silent = spec_silent_process();
    match silent.first.spec_parse(s) {
        Ok((r1, _)) => lemma_read_plain(r1),
        Err(_) => {},
    }
}

/// A single process is one valid process.
pub proof fn lemma_read_single_process(s: Seq<char>)
    ensures
        match SingleProcess.spec_parse(s) {
            Ok((_, ps)) => ps.len() == 1 && is_valid_process(ps[0]),
            Err(_) => true,
        },
{
    lemma_read_process_without_log_monitors(s);
    match ProcessWithoutLogMonitors.spec_parse(s) {
        Ok((rest, _)) => {
            let monitor = spec_log_monitors().parser;
            assert forall|x: Seq<char>|
                match #[trigger] monitor.spec_parse(x) {
                    Ok((_, v)) => is_name(v),
                    Err(_) => true,
                } by {
                match spec_space0().spec_parse(x) {
                    Ok((r1, _)) => match spec_whitespace_wrap(Literal { expected: "@" }).spec_parse(r1) {
                        Ok((r2, _)) => lemma_read_name(r2),
                        Err(_) => {},
                    },
                    Err(_) => {},
                }
            }
            lemma_repeat_elements(
                monitor,
                |v: Seq<char>| is_name(v),
                rest,
                0,
                UNBOUNDED_REPETITIONS as nat,
                0,
            );
        },
        Err(_) => {},
    }
}

/// A parsed task can be written out and read back.
#[verifier::rlimit(60)]
#[verifier::spinoff_prover]
pub proof fn lemma_read_task(s: Seq<char>)
    ensures
        match TaskParser.spec_parse(s) {
            Ok((_, ps)) => is_valid_task(ps),
            Err(_) => true,
        },
{
    lemma_read_single_process(s);
    let bracketed = crate::process::spec_bracketed_processes();
    match bracketed.first.spec_parse(s) {
        Ok((r1, _)) => {
            assert forall|x: Seq<char>|
                match #[trigger] SingleProcess.spec_parse(x) {
                    Ok((_, v)) => v.len() == 1 && is_valid_process(v[0]),
                    Err(_) => true,
                } by {
                lemma_read_single_process(x);
            }
            lemma_repeat_elements(
                SingleProcess,
                |v: Seq<ProcessView>| v.len() == 1 && is_valid_process(v[0]),
                r1,
                2,
                UNBOUNDED_REPETITIONS as nat,
                0,
            );
            match repeat_outcome(SingleProcess, r1, 2, UNBOUNDED_REPETITIONS as nat, 0) {
                Ok((_, groups)) => lemma_flatten_valid(groups),
                Err(_) => {},
            }
        },
        Err(_) => {},
    }
}

proof fn lemma_flatten_valid(groups: Seq<Seq<ProcessView>>)
    requires
        forall|i: int|
            0 <= i < groups.len() ==> (#[trigger] groups[i]).len() == 1 && is_valid_process(
                groups[i][0],
            ),
    ensures
        groups.flatten().len() == groups.len(),
        all_valid_processes(groups.flatten()),
    decreases groups.len(),
{
    if groups.len() > 0 {
        let tail = groups.drop_first();
        assert forall|i: int|
            0 <= i < tail.len() implies (#[trigger] tail[i]).len() == 1 && is_valid_process(
            tail[i][0],
        ) by {
            assert(tail[i] == groups[i + 1]);
        }
        lemma_flatten_valid(tail);
        let flat = groups.flatten();
        assert(flat == groups.first() + tail.flatten());
        assert(groups.first().len() == 1 && is_valid_process(groups[0][0]));
        assert forall|i: int| 0 <= i < flat.len() implies is_valid_process(#[trigger] flat[i]) by {
            if i == 0 {
                assert(flat[0] == groups[0][0]);
            } else {
                assert(flat[i] == tail.flatten()[i - 1]);
            }
        }
    }
}

/// A parsed job tree can be written out and read back.
pub proof fn lemma_read_job(s: Seq<char>)
    ensures
        match crate::job::JobParser.spec_parse(s) {
            Ok((_, tasks)) => is_valid_job(tasks),
            Err(_) => true,
        },
{
    let task = spec_tasks().parser;
    assert forall|x: Seq<char>|
        match #[trigger] task.spec_parse(x) {
            Ok((_, v)) => is_valid_task(v),
            Err(_) => true,
        } by {
        match spec_space0().spec_parse(x) {
            Ok((r1, _)) => lemma_read_task(r1),
            Err(_) => {},
        }
    }
    lemma_repeat_elements(
        task,
        |v: Seq<ProcessView>| is_valid_task(v),
        s,
        1,
        UNBOUNDED_REPETITIONS as nat,
        0,
    );
}

/// Re-serializing a parsed job tree whose log monitors all have names, and
/// parsing the text again, yields the same tree.
pub proof fn lemma_reparse(source: Seq<char>, tasks: Seq<Seq<ProcessView>>)
    requires
        crate::job_result(source) == Ok::<_, ((nat, nat), Seq<char>)>(tasks),
        job_named_monitors(tasks),
    ensures
        crate::job_result(job_text(tasks)) == Ok::<_, ((nat, nat), Seq<char>)>(tasks),
{
    lemma_separators_distinct();
    lemma_read_job(source);
    lemma_round_trip(tasks);
}

} // verus!

//! Laws of the grammar: what parsing yields on whole families of inputs.
use crate::combinators::{repeat_outcome, Literal, Optional, Right, UNBOUNDED_REPETITIONS};
use core::marker::PhantomData;
use crate::parser::Parser;
use crate::process::{
    name_len, process_view, spec_log_monitors, spec_onfail, spec_onsucceed, spec_plain_process,
    spec_silent_process, ProcessName, ProcessView, ProcessWithoutLogMonitors, SingleProcess,
    ConcurrentProcesses, spec_bracketed_processes,
};
use crate::text::{is_alphanumeric_char, is_name_char, is_white_space};
use crate::whitespace::{spec_space0, spec_whitespace_wrap, WhitespaceChar};
use vstd::prelude::*;

verus! {

/// The punctuation of the grammar.
pub open spec fn is_punctuation(c: char) -> bool {
    c == '?' || c == ':' || c == ';' || c == '@' || c == '(' || c == ')' || c == '[' || c == ']'
}

/// How the grammar's characters are classified: no alphanumeric character
/// is whitespace; the punctuation is neither; the space and the line feed
/// are whitespace and not alphanumeric; `-` and `_` are not whitespace.
pub open spec fn separators_distinct() -> bool {
    &&& forall|c: char| #[trigger] is_alphanumeric_char(c) ==> !is_white_space(c)
    &&& forall|c: char|
        #[trigger] is_punctuation(c) ==> !is_white_space(c) && !is_alphanumeric_char(c)
    &&& !is_alphanumeric_char(' ')
    &&& !is_alphanumeric_char('\n')
    &&& !is_white_space('-')
    &&& !is_white_space('_')
    &&& is_white_space(' ')
    &&& is_white_space('\n')
}

/// The character classes keep names, whitespace and punctuation apart.
pub proof fn lemma_separators_distinct()
    ensures
        separators_distinct(),
{
    assert forall|c: char| #[trigger] is_punctuation(c) implies !is_white_space(c)
        && !is_alphanumeric_char(c) by {
        assert(c as u32 == 0x3F || c as u32 == 0x3A || c as u32 == 0x3B || c as u32 == 0x40 || c as u32
            == 0x28 || c as u32 == 0x29 || c as u32 == 0x5B || c as u32 == 0x5D);
    }
    assert(' ' as u32 == 0x20);
    assert('\n' as u32 == 0x0A);
    assert('-' as u32 == 0x2D);
    assert('_' as u32 == 0x5F);
}

/// Every character of `w` is whitespace.
pub open spec fn all_white(w: Seq<char>) -> bool {
    forall|i: int| 0 <= i < w.len() ==> #[trigger] is_white_space(w[i])
}

/// `s` does not begin with whitespace.
pub open spec fn no_leading_white(s: Seq<char>) -> bool {
    s.len() == 0 || !is_white_space(s[0])
}

/// `s` does not begin with a name character.
pub open spec fn no_leading_name_char(s: Seq<char>) -> bool {
    s.len() == 0 || !is_name_char(s[0])
}

/// A valid process name: one or more name characters.
pub open spec fn is_valid_name(n: Seq<char>) -> bool {
    n.len() > 0 && forall|i: int| 0 <= i < n.len() ==> #[trigger] is_name_char(n[i])
}

proof fn lemma_repeat_white(w: Seq<char>, s: Seq<char>, done: nat)
    requires
        all_white(w),
        no_leading_white(s),
        done + w.len() < UNBOUNDED_REPETITIONS,
    ensures
        repeat_outcome(WhitespaceChar, w + s, 0, UNBOUNDED_REPETITIONS as nat, done) == Ok::<
            _,
            Seq<char>,
        >((s, w)),
    decreases w.len(),
{
    if w.len() == 0 {
        assert(w + s =~= s);
        assert(w =~= Seq::<char>::empty());
    } else {
        assert((w + s).drop_first() =~= w.drop_first() + s);
        assert((w + s)[0] == w[0]);
        assert(is_white_space(w[0]));
        assert(all_white(w.drop_first())) by {
            assert forall|i: int| 0 <= i < w.drop_first().len() implies #[trigger] is_white_space(
                w.drop_first()[i],
            ) by {
                assert(w.drop_first()[i] == w[i + 1]);
            }
        }
        lemma_repeat_white(w.drop_first(), s, done + 1);
        assert(seq![w[0]] + w.drop_first() =~= w);
    }
}

/// A run of fewer than `UNBOUNDED_REPETITIONS` whitespace characters is
/// skipped up to the first other character.
pub proof fn lemma_space0(w: Seq<char>, s: Seq<char>)
    requires
        all_white(w),
        no_leading_white(s),
        w.len() < UNBOUNDED_REPETITIONS,
    ensures
        spec_space0().spec_parse(w + s) == Ok::<_, Seq<char>>((s, w)),
{
    lemma_repeat_white(w, s, 0);
}

/// A literal matches its own text.
pub proof fn lemma_literal_match(lit: Literal, t: Seq<char>)
    ensures
        lit.spec_parse(lit.expected@ + t) == Ok::<_, Seq<char>>((t, ())),
{
    let e = lit.expected@;
    assert((e + t).subrange(0, e.len() as int) =~= e);
    assert((e + t).skip(e.len() as int) =~= t);
}

/// A one-character literal fails where the input begins otherwise.
pub proof fn lemma_literal_mismatch(lit: Literal, s: Seq<char>)
    requires
        lit.expected@.len() == 1,
        s.len() == 0 || s[0] != lit.expected@[0],
    ensures
        lit.spec_parse(s) == Err::<(Seq<char>, ()), _>(s),
{
    if s.len() > 0 {
        assert(s.subrange(0, 1)[0] == s[0]);
    }
}

/// Whitespace on both sides of what `p` reads is skipped.
pub proof fn lemma_whitespace_wrap<A: DeepView, P: Parser<A>>(
    p: P,
    w1: Seq<char>,
    x: Seq<char>,
    w2: Seq<char>,
    t: Seq<char>,
    v: A::V,
)
    requires
        all_white(w1),
        all_white(w2),
        w1.len() < UNBOUNDED_REPETITIONS,
        w2.len() < UNBOUNDED_REPETITIONS,
        x.len() > 0,
        !is_white_space(x[0]),
        no_leading_white(t),
        p.spec_parse(x + w2 + t) == Ok::<_, Seq<char>>((w2 + t, v)),
    ensures
        spec_whitespace_wrap(p).spec_parse(w1 + x + w2 + t) == Ok::<_, Seq<char>>((t, v)),
{
    let s = w1 + x + w2 + t;
    assert(s =~= w1 + (x + w2 + t));
    assert((x + w2 + t)[0] == x[0]);
    lemma_space0(w1, x + w2 + t);
    lemma_space0(w2, t);
}

/// Where `p` fails after the leading whitespace, so does the wrapped parser.
pub proof fn lemma_whitespace_wrap_fails<A: DeepView, P: Parser<A>>(p: P, w: Seq<char>, s: Seq<char>)
    requires
        all_white(w),
        w.len() < UNBOUNDED_REPETITIONS,
        no_leading_white(s),
        p.spec_parse(s) is Err,
    ensures
        spec_whitespace_wrap(p).spec_parse(w + s) is Err,
{
    lemma_space0(w, s);
}

proof fn lemma_name_len(n: Seq<char>, t: Seq<char>)
    requires
        forall|i: int| 0 <= i < n.len() ==> #[trigger] is_name_char(n[i]),
        no_leading_name_char(t),
    ensures
        name_len(n + t) == n.len(),
    decreases n.len(),
{
    if n.len() == 0 {
        assert(n + t =~= t);
    } else {
        assert((n + t).drop_first() =~= n.drop_first() + t);
        assert((n + t)[0] == n[0]);
        lemma_name_len(n.drop_first(), t);
    }
}

/// A process name is read up to the first character that cannot be in one.
pub proof fn lemma_process_name(n: Seq<char>, t: Seq<char>)
    requires
        forall|i: int| 0 <= i < n.len() ==> #[trigger] is_name_char(n[i]),
        no_leading_name_char(t),
    ensures
        ProcessName.spec_parse(n + t) == Ok::<_, Seq<char>>((t, n)),
{
    lemma_name_len(n, t);
    assert((n + t).skip(n.len() as int) =~= t);
    assert((n + t).take(n.len() as int) =~= n);
}

/// What the grammar's literals read.
pub proof fn lemma_literal_texts()
    ensures
        "?"@ == seq!['?'],
        ":"@ == seq![':'],
        ";"@ == seq![';'],
        "@"@ == seq!['@'],
        "("@ == seq!['('],
        ")"@ == seq![')'],
        "["@ == seq!['['],
        "]"@ == seq![']'],
{
    reveal_strlit("?");
    reveal_strlit(":");
    reveal_strlit(";");
    reveal_strlit("@");
    reveal_strlit("(");
    reveal_strlit(")");
    reveal_strlit("[");
    reveal_strlit("]");
    assert("?"@ =~= seq!['?']);
    assert(":"@ =~= seq![':']);
    assert(";"@ =~= seq![';']);
    assert("@"@ =~= seq!['@']);
    assert("("@ =~= seq!['(']);
    assert(")"@ =~= seq![')']);
    assert("["@ =~= seq!['[']);
    assert("]"@ =~= seq![']']);
}

/// The text of an optional target: the marker between single spaces and
/// then the name, or nothing.
pub open spec fn target_text(marker: char, target: Option<Seq<char>>) -> Seq<char> {
    match target {
        Some(n) => seq![' ', marker, ' '] + n,
        None => Seq::empty(),
    }
}

/// The text of a process up to its `;`: its name, then `" ? "` and the
/// success target, then `" : "` and the failure target, each where present.
pub open spec fn plain_text(
    name: Seq<char>,
    onsucceed: Option<Seq<char>>,
    onfail: Option<Seq<char>>,
) -> Seq<char> {
    name + target_text('?', onsucceed) + target_text(':', onfail) + seq![';']
}

/// An absent target, or a valid name.
pub open spec fn is_valid_target(target: Option<Seq<char>>) -> bool {
    match target {
        Some(n) => is_valid_name(n),
        None => true,
    }
}

/// The parser of a target introduced by the one-character literal `lit`.
pub open spec fn target_parser(lit: Literal) -> Optional<
    Right<crate::whitespace::WhitespaceWrap<Literal>, ProcessName, ()>,
> {
    Optional {
        parser: Right {
            first: spec_whitespace_wrap(lit),
            second: ProcessName,
            discarded: PhantomData,
        },
    }
}

pub proof fn lemma_name_start(n: Seq<char>)
    requires
        is_valid_name(n),
    ensures
        !is_white_space(n[0]),
        !is_punctuation(n[0]),
{
    lemma_separators_distinct();
    assert(is_name_char(n[0]));
    if is_alphanumeric_char(n[0]) {
        assert(!is_white_space(n[0]));
    }
}

proof fn lemma_target_some(lit: Literal, marker: char, n: Seq<char>, t: Seq<char>)
    requires
        is_punctuation(marker),
        lit.expected@ == seq![marker],
        is_valid_name(n),
        no_leading_name_char(t),
    ensures
        target_parser(lit).spec_parse(seq![' ', marker, ' '] + n + t) == Ok::<_, Seq<char>>(
            (t, Some(n)),
        ),
{
    lemma_separators_distinct();
    let rest = n + t;
    lemma_name_start(n);
    assert(rest[0] == n[0]);
    assert(seq![marker] + seq![' '] + rest =~= lit.expected@ + (seq![' '] + rest));
    lemma_literal_match(lit, seq![' '] + rest);
    assert(all_white(seq![' ']));
    lemma_whitespace_wrap(lit, seq![' '], seq![marker], seq![' '], rest, ());
    assert(seq![' ', marker, ' '] + n + t =~= seq![' '] + seq![marker] + seq![' '] + rest);
    lemma_process_name(n, t);
}

pub proof fn lemma_target_none(lit: Literal, marker: char, w: Seq<char>, s: Seq<char>)
    requires
        lit.expected@ == seq![marker],
        all_white(w),
        w.len() < UNBOUNDED_REPETITIONS,
        no_leading_white(s),
        s.len() == 0 || s[0] != marker,
    ensures
        target_parser(lit).spec_parse(w + s) == Ok::<_, Seq<char>>((w + s, None::<Seq<char>>)),
{
    lemma_separators_distinct();
    lemma_literal_mismatch(lit, s);
    lemma_whitespace_wrap_fails(lit, w, s);
}

/// A process written as its name, its targets and `;` is read back with
/// those fields, along with the whitespace after it.
#[verifier::rlimit(60)]
#[verifier::spinoff_prover]
pub proof fn lemma_plain_process_then_white(
    name: Seq<char>,
    onsucceed: Option<Seq<char>>,
    onfail: Option<Seq<char>>,
    w: Seq<char>,
    t: Seq<char>,
)
    requires
        is_valid_name(name),
        is_valid_target(onsucceed),
        is_valid_target(onfail),
        all_white(w),
        w.len() < UNBOUNDED_REPETITIONS,
        no_leading_white(t),
    ensures
        spec_plain_process().spec_parse(plain_text(name, onsucceed, onfail) + w + t) == Ok::<
            _,
            Seq<char>,
        >((t, (name, (onsucceed, onfail)))),
{
    lemma_separators_distinct();
    lemma_literal_texts();
    let semi_t = seq![';'] + w + t;
    let after_s = target_text(':', onfail) + semi_t;
    let after_name = target_text('?', onsucceed) + after_s;
    let text = plain_text(name, onsucceed, onfail);
    assert(text + w + t =~= name + after_name);
    assert(is_punctuation(';'));
    assert(is_punctuation('?'));
    assert(is_punctuation(':'));
    // the failure target
    match onfail {
        Some(f) => {
            assert(after_s =~= seq![' ', ':', ' '] + f + semi_t);
            lemma_target_some(Literal { expected: ":" }, ':', f, semi_t);
        },
        None => {
            assert(after_s =~= Seq::<char>::empty() + semi_t);
            assert(all_white(Seq::<char>::empty()));
            lemma_target_none(Literal { expected: ":" }, ':', Seq::empty(), semi_t);
        },
    }
    assert(target_parser(Literal { expected: ":" }) == (Optional { parser: spec_onfail() }));
    assert(target_parser(Literal { expected: "?" }) == (Optional { parser: spec_onsucceed() }));
    // the success target
    match onsucceed {
        Some(s) => {
            assert(after_name =~= seq![' ', '?', ' '] + s + after_s);
            assert(after_s[0] == ' ' || after_s[0] == ';');
            lemma_target_some(Literal { expected: "?" }, '?', s, after_s);
        },
        None => {
            assert(after_name =~= after_s);
            match onfail {
                Some(f) => {
                    assert(all_white(seq![' ']));
                    assert(after_s =~= seq![' '] + (seq![':', ' '] + f + semi_t));
                    lemma_target_none(
                        Literal { expected: "?" },
                        '?',
                        seq![' '],
                        seq![':', ' '] + f + semi_t,
                    );
                },
                None => {
                    assert(all_white(Seq::<char>::empty()));
                    assert(after_s =~= Seq::<char>::empty() + semi_t);
                    lemma_target_none(Literal { expected: "?" }, '?', Seq::empty(), semi_t);
                },
            }
        },
    }
    // the name
    assert(after_name.len() > 0);
    assert(after_name[0] == ' ' || after_name[0] == ';');
    lemma_process_name(name, after_name);
    lemma_literal_match(Literal { expected: ";" }, w + t);
    assert(!is_white_space(seq![';'][0]));
    assert(seq![';'] + w + t =~= ";"@ + (w + t));
    lemma_whitespace_wrap(Literal { expected: ";" }, Seq::empty(), seq![';'], w, t, ());
    assert(Seq::<char>::empty() + seq![';'] + w + t =~= seq![';'] + w + t);
    // the whitespace around it
    let inner = spec_plain_process().second.first;
    lemma_name_start(name);
    assert(text[0] == name[0]);
    assert(all_white(Seq::<char>::empty()));
    assert((text + w)[0] == text[0]);
    assert(text + w + Seq::<char>::empty() + t =~= text + w + t);
    assert(Seq::<char>::empty() + t =~= t);
    lemma_whitespace_wrap(inner, Seq::empty(), text + w, Seq::empty(), t, (name, (onsucceed, onfail)));
    assert(Seq::<char>::empty() + (text + w) + Seq::<char>::empty() + t =~= text + w + t);
}

/// A process written as its name, its targets and `;` is read back with
/// those fields, whatever follows that does not begin with whitespace.
pub proof fn lemma_plain_process(
    name: Seq<char>,
    onsucceed: Option<Seq<char>>,
    onfail: Option<Seq<char>>,
    t: Seq<char>,
)
    requires
        is_valid_name(name),
        is_valid_target(onsucceed),
        is_valid_target(onfail),
        no_leading_white(t),
    ensures
        spec_plain_process().spec_parse(plain_text(name, onsucceed, onfail) + t) == Ok::<
            _,
            Seq<char>,
        >((t, (name, (onsucceed, onfail)))),
{
    let e = Seq::<char>::empty();
    assert(all_white(e));
    lemma_plain_process_then_white(name, onsucceed, onfail, e, t);
    assert(plain_text(name, onsucceed, onfail) + e + t =~= plain_text(name, onsucceed, onfail) + t);
}


/// The same text wrapped in parentheses is read back with the same fields,
/// along with the whitespace after it.
#[verifier::rlimit(60)]
#[verifier::spinoff_prover]
pub proof fn lemma_silent_process_then_white(
    name: Seq<char>,
    onsucceed: Option<Seq<char>>,
    onfail: Option<Seq<char>>,
    w: Seq<char>,
    t: Seq<char>,
)
    requires
        is_valid_name(name),
        is_valid_target(onsucceed),
        is_valid_target(onfail),
        all_white(w),
        w.len() < UNBOUNDED_REPETITIONS,
        no_leading_white(t),
    ensures
        spec_silent_process().spec_parse(
            seq!['('] + plain_text(name, onsucceed, onfail) + seq![')'] + w + t,
        ) == Ok::<_, Seq<char>>((t, (name, (onsucceed, onfail)))),
{
    lemma_separators_distinct();
    lemma_literal_texts();
    let text = plain_text(name, onsucceed, onfail);
    let close_t = seq![')'] + w + t;
    let rest = text + close_t;
    let e = Seq::<char>::empty();
    assert(all_white(e));
    assert(is_punctuation(')'));
    assert(is_punctuation('('));
    assert(!is_white_space(seq!['('][0]));
    assert(!is_white_space(seq![')'][0]));
    lemma_name_start(name);
    assert(rest[0] == name[0]);
    // the opening parenthesis
    lemma_literal_match(Literal { expected: "(" }, rest);
    assert(seq!['('] + e + rest =~= seq!['('] + rest);
    assert(e + rest =~= rest);
    lemma_whitespace_wrap(Literal { expected: "(" }, e, seq!['('], e, rest, ());
    // the body
    lemma_plain_process(name, onsucceed, onfail, close_t);
    // the closing parenthesis
    lemma_literal_match(Literal { expected: ")" }, w + t);
    assert(seq![')'] + w + t =~= ")"@ + (w + t));
    lemma_whitespace_wrap(Literal { expected: ")" }, e, seq![')'], w, t, ());
    assert(e + seq![')'] + w + t =~= close_t);
    assert(e + seq!['('] + e + rest =~= seq!['('] + text + seq![')'] + w + t);
}

/// The same text wrapped in parentheses is read back with the same fields.
pub proof fn lemma_silent_process(
    name: Seq<char>,
    onsucceed: Option<Seq<char>>,
    onfail: Option<Seq<char>>,
    t: Seq<char>,
)
    requires
        is_valid_name(name),
        is_valid_target(onsucceed),
        is_valid_target(onfail),
        no_leading_white(t),
    ensures
        spec_silent_process().spec_parse(
            seq!['('] + plain_text(name, onsucceed, onfail) + seq![')'] + t,
        ) == Ok::<_, Seq<char>>((t, (name, (onsucceed, onfail)))),
{
    let e = Seq::<char>::empty();
    assert(all_white(e));
    lemma_silent_process_then_white(name, onsucceed, onfail, e, t);
    let text = plain_text(name, onsucceed, onfail);
    assert(seq!['('] + text + seq![')'] + e + t =~= seq!['('] + text + seq![')'] + t);
}


/// What follows a process when it has no log monitors: nothing, or text that
/// begins with neither whitespace nor `@`.
pub open spec fn ends_process(t: Seq<char>) -> bool {
    t.len() == 0 || (!is_white_space(t[0]) && t[0] != '@')
}

proof fn lemma_no_log_monitors(t: Seq<char>)
    requires
        ends_process(t),
    ensures
        spec_log_monitors().spec_parse(t) == Ok::<_, Seq<char>>((t, Seq::<Seq<char>>::empty())),
{
    lemma_literal_texts();
    let e = Seq::<char>::empty();
    assert(all_white(e));
    assert(e + t =~= t);
    lemma_literal_mismatch(Literal { expected: "@" }, t);
    lemma_whitespace_wrap_fails(Literal { expected: "@" }, e, t);
    lemma_whitespace_wrap_fails(
        Right {
            first: spec_whitespace_wrap(Literal { expected: "@" }),
            second: ProcessName,
            discarded: PhantomData::<()>,
        },
        e,
        t,
    );
}

/// The process that a plain process text stands for.
pub open spec fn described_process(
    name: Seq<char>,
    onsucceed: Option<Seq<char>>,
    onfail: Option<Seq<char>>,
    silent: bool,
) -> ProcessView {
    ProcessView { name, onsucceed, onfail, silent, log_monitors: Seq::empty() }
}

/// A process text, in parentheses or not, is read back as that process,
/// before anything that does not begin with whitespace.
#[verifier::rlimit(60)]
#[verifier::spinoff_prover]
pub proof fn lemma_process_without_log_monitors(
    name: Seq<char>,
    onsucceed: Option<Seq<char>>,
    onfail: Option<Seq<char>>,
    silent: bool,
    t: Seq<char>,
)
    requires
        is_valid_name(name),
        is_valid_target(onsucceed),
        is_valid_target(onfail),
        no_leading_white(t),
    ensures
        ProcessWithoutLogMonitors.spec_parse(process_text(name, onsucceed, onfail, silent) + t)
            == Ok::<_, Seq<char>>((t, described_process(name, onsucceed, onfail, silent))),
{
    lemma_separators_distinct();
    lemma_literal_texts();
    let text = plain_text(name, onsucceed, onfail);
    let body = (name, (onsucceed, onfail));
    if silent {
        lemma_silent_process(name, onsucceed, onfail, t);
        assert(process_view(body, true) == described_process(name, onsucceed, onfail, true));
    } else {
        let e = Seq::<char>::empty();
        assert(all_white(e));
        lemma_name_start(name);
        assert((text + t)[0] == name[0]);
        assert(is_punctuation('('));
        lemma_literal_mismatch(Literal { expected: "(" }, text + t);
        assert(e + (text + t) =~= text + t);
        lemma_whitespace_wrap_fails(Literal { expected: "(" }, e, text + t);
        lemma_plain_process(name, onsucceed, onfail, t);
        assert(process_view(body, false) == described_process(name, onsucceed, onfail, false));
    }
}

/// A single process written as its name, its targets and `;`, possibly in
/// parentheses and followed by what `ends_process` allows, is read back as
/// exactly that process.
pub proof fn lemma_single_process(
    name: Seq<char>,
    onsucceed: Option<Seq<char>>,
    onfail: Option<Seq<char>>,
    silent: bool,
    t: Seq<char>,
)
    requires
        is_valid_name(name),
        is_valid_target(onsucceed),
        is_valid_target(onfail),
        ends_process(t),
    ensures
        SingleProcess.spec_parse(process_text(name, onsucceed, onfail, silent) + t) == Ok::<
            _,
            Seq<char>,
        >((t, seq![described_process(name, onsucceed, onfail, silent)])),
{
    lemma_separators_distinct();
    lemma_no_log_monitors(t);
    lemma_process_without_log_monitors(name, onsucceed, onfail, silent, t);
}

/// A process written `"{n1} ? {n2} : {n3};"` with valid names is read as
/// one process named `n1` that runs `n2` on success and `n3` on failure, is
/// not silent and has no log monitors.
pub proof fn lemma_both_targets(n1: Seq<char>, n2: Seq<char>, n3: Seq<char>)
    requires
        is_valid_name(n1),
        is_valid_name(n2),
        is_valid_name(n3),
    ensures
        SingleProcess.spec_parse(
            n1 + seq![' ', '?', ' '] + n2 + seq![' ', ':', ' '] + n3 + seq![';'],
        ) == Ok::<_, Seq<char>>(
            (
                Seq::<char>::empty(),
                seq![
                    ProcessView {
                        name: n1,
                        onsucceed: Some(n2),
                        onfail: Some(n3),
                        silent: false,
                        log_monitors: Seq::empty(),
                    },
                ],
            ),
        ),
{
    lemma_separators_distinct();
    let e = Seq::<char>::empty();
    lemma_single_process(n1, Some(n2), Some(n3), false, e);
    assert(plain_text(n1, Some(n2), Some(n3)) + e =~= n1 + seq![' ', '?', ' '] + n2 + seq![
        ' ',
        ':',
        ' ',
    ] + n3 + seq![';']);
}

/// Wrapping a process text in parentheses yields the same process, silent.
pub proof fn lemma_parentheses_make_silent(
    name: Seq<char>,
    onsucceed: Option<Seq<char>>,
    onfail: Option<Seq<char>>,
)
    requires
        is_valid_name(name),
        is_valid_target(onsucceed),
        is_valid_target(onfail),
    ensures
        SingleProcess.spec_parse(plain_text(name, onsucceed, onfail)) == Ok::<_, Seq<char>>(
            (Seq::<char>::empty(), seq![described_process(name, onsucceed, onfail, false)]),
        ),
        SingleProcess.spec_parse(seq!['('] + plain_text(name, onsucceed, onfail) + seq![')'])
            == Ok::<_, Seq<char>>(
            (Seq::<char>::empty(), seq![described_process(name, onsucceed, onfail, true)]),
        ),
{
    lemma_separators_distinct();
    let e = Seq::<char>::empty();
    let text = plain_text(name, onsucceed, onfail);
    lemma_single_process(name, onsucceed, onfail, false, e);
    lemma_single_process(name, onsucceed, onfail, true, e);
    assert(text + e =~= text);
    assert(seq!['('] + text + seq![')'] + e =~= seq!['('] + text + seq![')']);
}

/// The text of a process: its plain text, in parentheses where silent.
pub open spec fn process_text(
    name: Seq<char>,
    onsucceed: Option<Seq<char>>,
    onfail: Option<Seq<char>>,
    silent: bool,
) -> Seq<char> {
    if silent {
        seq!['('] + plain_text(name, onsucceed, onfail) + seq![')']
    } else {
        plain_text(name, onsucceed, onfail)
    }
}

/// A single process fails where, after whitespace, the input ends or a
/// bracket follows.
#[verifier::rlimit(60)]
#[verifier::spinoff_prover]
pub proof fn lemma_single_process_fails_at(w: Seq<char>, t: Seq<char>)
    requires
        all_white(w),
        w.len() < UNBOUNDED_REPETITIONS,
        t.len() == 0 || t[0] == ']' || t[0] == '[',
    ensures
        SingleProcess.spec_parse(w + t) is Err,
{
    lemma_separators_distinct();
    lemma_literal_texts();
    let e = Seq::<char>::empty();
    assert(all_white(e));
    assert(e + t =~= t);
    assert(is_punctuation(']') && is_punctuation('['));
    assert(no_leading_name_char(t));
    assert(no_leading_white(t));
    // not silent
    lemma_literal_mismatch(Literal { expected: "(" }, t);
    lemma_whitespace_wrap_fails(Literal { expected: "(" }, w, t);
    // not plain: an empty name, no targets, and no `;`
    lemma_process_name(e, t);
    lemma_target_none(Literal { expected: "?" }, '?', e, t);
    lemma_target_none(Literal { expected: ":" }, ':', e, t);
    assert(target_parser(Literal { expected: ":" }) == (Optional { parser: spec_onfail() }));
    assert(target_parser(Literal { expected: "?" }) == (Optional { parser: spec_onsucceed() }));
    lemma_literal_mismatch(Literal { expected: ";" }, t);
    lemma_whitespace_wrap_fails(Literal { expected: ";" }, e, t);
    lemma_whitespace_wrap_fails(spec_plain_process().second.first, w, t);
}

/// A single process fails on empty input and on input that begins with `]`.
pub proof fn lemma_single_process_fails_on_close(t: Seq<char>)
    requires
        t.len() == 0 || t[0] == ']',
    ensures
        SingleProcess.spec_parse(t) is Err,
{
    let e = Seq::<char>::empty();
    assert(all_white(e));
    assert(e + t =~= t);
    lemma_single_process_fails_at(e, t);
}

/// A bracketed group that holds exactly one process fails to parse.
#[verifier::rlimit(60)]
#[verifier::spinoff_prover]
pub proof fn lemma_group_of_one_fails(
    name: Seq<char>,
    onsucceed: Option<Seq<char>>,
    onfail: Option<Seq<char>>,
    silent: bool,
)
    requires
        is_valid_name(name),
        is_valid_target(onsucceed),
        is_valid_target(onfail),
    ensures
        ConcurrentProcesses.spec_parse(
            seq!['['] + process_text(name, onsucceed, onfail, silent) + seq![']'],
        ) is Err,
{
    lemma_separators_distinct();
    lemma_literal_texts();
    let e = Seq::<char>::empty();
    let text = process_text(name, onsucceed, onfail, silent);
    let close = seq![']'];
    let rest = text + close;
    assert(all_white(e));
    assert(is_punctuation('['));
    assert(is_punctuation(']'));
    assert(is_punctuation('('));
    assert(!is_white_space(seq!['['][0]));
    lemma_name_start(name);
    assert(rest[0] == '(' || rest[0] == name[0]);
    lemma_literal_match(Literal { expected: "[" }, rest);
    assert(seq!['['] + e + rest =~= seq!['['] + rest);
    assert(e + rest =~= rest);
    lemma_whitespace_wrap(Literal { expected: "[" }, e, seq!['['], e, rest, ());
    assert(e + seq!['['] + e + rest =~= seq!['['] + text + close);
    lemma_single_process(name, onsucceed, onfail, silent, close);
    assert(SingleProcess.spec_parse(rest) is Ok);
    lemma_single_process_fails_on_close(close);
    assert(repeat_outcome(SingleProcess, close, 2, UNBOUNDED_REPETITIONS as nat, 1) is Err);
    assert(repeat_outcome(SingleProcess, rest, 2, UNBOUNDED_REPETITIONS as nat, 0) is Err);
}

proof fn lemma_groups_of_one(s: Seq<char>, done: nat)
    requires
        done <= UNBOUNDED_REPETITIONS,
    ensures
        repeat_outcome(SingleProcess, s, 2, UNBOUNDED_REPETITIONS as nat, done) matches Ok((
            _,
            groups,
        )) ==> groups.len() + done >= 2 && groups.flatten().len() == groups.len(),
    decreases UNBOUNDED_REPETITIONS - done,
{
    if done < UNBOUNDED_REPETITIONS {
        match SingleProcess.spec_parse(s) {
            Ok((rest, a)) => {
                lemma_groups_of_one(rest, done + 1);
                match repeat_outcome(SingleProcess, rest, 2, UNBOUNDED_REPETITIONS as nat, done + 1) {
                    Ok((_, tail)) => {
                        let groups = seq![a] + tail;
                        assert(groups.first() == a);
                        assert(groups.drop_first() =~= tail);
                    },
                    Err(_) => {},
                }
            },
            Err(_) => {},
        }
    }
}

/// A bracketed group, where it parses, holds at least two processes.
pub proof fn lemma_concurrent_at_least_two(input: Seq<char>)
    ensures
        ConcurrentProcesses.spec_parse(input) matches Ok((_, processes)) ==> processes.len() >= 2,
{
    let bracketed = spec_bracketed_processes();
    match spec_whitespace_wrap(Literal { expected: "[" }).spec_parse(input) {
        Ok((rest, _)) => {
            lemma_groups_of_one(rest, 0);
        },
        Err(_) => {},
    }
}

/// A bracketed group that holds exactly one process is no task at all: it
/// is neither a concurrent group nor a single process, whatever whitespace
/// comes before or after the `[`, and whatever follows the `]`.
#[verifier::rlimit(60)]
#[verifier::spinoff_prover]
pub proof fn lemma_task_of_one_bracketed_fails(
    w1: Seq<char>,
    w2: Seq<char>,
    name: Seq<char>,
    onsucceed: Option<Seq<char>>,
    onfail: Option<Seq<char>>,
    silent: bool,
    t: Seq<char>,
)
    requires
        all_white(w1),
        all_white(w2),
        w1.len() < UNBOUNDED_REPETITIONS,
        w2.len() < UNBOUNDED_REPETITIONS,
        is_valid_name(name),
        is_valid_target(onsucceed),
        is_valid_target(onfail),
    ensures
        ConcurrentProcesses.spec_parse(
            w1 + seq!['['] + w2 + process_text(name, onsucceed, onfail, silent) + seq![']'] + t,
        ) is Err,
        crate::task::TaskParser.spec_parse(
            w1 + seq!['['] + w2 + process_text(name, onsucceed, onfail, silent) + seq![']'] + t,
        ) is Err,
{
    lemma_separators_distinct();
    lemma_literal_texts();
    let text = process_text(name, onsucceed, onfail, silent);
    let close = seq![']'] + t;
    let rest = text + close;
    let input = w1 + seq!['['] + w2 + text + seq![']'] + t;
    assert(input =~= w1 + seq!['['] + w2 + rest);
    assert(is_punctuation('[') && is_punctuation(']') && is_punctuation('('));
    assert(!is_white_space(seq!['['][0]));
    lemma_name_start(name);
    assert(rest[0] == '(' || rest[0] == name[0]);
    // the bracket and the whitespace on both sides of it
    lemma_literal_match(Literal { expected: "[" }, w2 + rest);
    assert(seq!['['] + w2 + rest =~= "["@ + (w2 + rest));
    lemma_whitespace_wrap(Literal { expected: "[" }, w1, seq!['['], w2, rest, ());
    // one process, then no second one
    lemma_single_process(name, onsucceed, onfail, silent, close);
    assert(SingleProcess.spec_parse(rest) is Ok);
    lemma_single_process_fails_on_close(close);
    assert(repeat_outcome(SingleProcess, close, 2, UNBOUNDED_REPETITIONS as nat, 1) is Err);
    assert(repeat_outcome(SingleProcess, rest, 2, UNBOUNDED_REPETITIONS as nat, 0) is Err);
    // nor a single process
    assert(input =~= w1 + (seq!['['] + w2 + rest));
    lemma_single_process_fails_at(w1, seq!['['] + w2 + rest);
}

proof fn lemma_repeat_white_prefix(s: Seq<char>, done: nat)
    requires
        done <= UNBOUNDED_REPETITIONS,
    ensures
        match repeat_outcome(WhitespaceChar, s, 0, UNBOUNDED_REPETITIONS as nat, done) {
            Ok((rest, w)) => s =~= w + rest && all_white(w),
            Err(_) => false,
        },
    decreases UNBOUNDED_REPETITIONS - done,
{
    if done < UNBOUNDED_REPETITIONS {
        if s.len() > 0 && is_white_space(s[0]) {
            lemma_repeat_white_prefix(s.drop_first(), done + 1);
            match repeat_outcome(
                WhitespaceChar,
                s.drop_first(),
                0,
                UNBOUNDED_REPETITIONS as nat,
                done + 1,
            ) {
                Ok((rest, w)) => {
                    let w2 = seq![s[0]] + w;
                    assert(s.drop_first() =~= w + rest);
                    assert(s =~= seq![s[0]] + s.drop_first());
                    assert(seq![s[0]] + (w + rest) =~= w2 + rest);
                    assert(s =~= w2 + rest);
                    assert forall|i: int| 0 <= i < w2.len() implies #[trigger] is_white_space(
                        w2[i],
                    ) by {
                        if i > 0 {
                            assert(w2[i] == w[i - 1]);
                        }
                    }
                },
                Err(_) => {},
            }
        } else {
            assert(s =~= Seq::<char>::empty() + s);
        }
    } else {
        assert(s =~= Seq::<char>::empty() + s);
    }
}

/// Skipping whitespace removes a prefix of whitespace and never fails.
pub proof fn lemma_space0_prefix(s: Seq<char>)
    ensures
        match spec_space0().spec_parse(s) {
            Ok((rest, w)) => s =~= w + rest && all_white(w),
            Err(_) => false,
        },
{
    lemma_repeat_white_prefix(s, 0);
}

/// The first character of `s` that is not whitespace is not `@`; there may
/// be none.
pub open spec fn no_at_sign_first(s: Seq<char>) -> bool {
    forall|k: int|
        0 <= k < s.len() && all_white(#[trigger] s.take(k)) && !is_white_space(s[k]) ==> s[k]
            != '@'
}

/// Where the first character after any whitespace is not `@`, the log
/// monitors parser succeeds with no monitors and consumes nothing, not even
/// the whitespace.
pub proof fn lemma_no_monitors_consume_nothing(input: Seq<char>)
    requires
        no_at_sign_first(input),
    ensures
        spec_log_monitors().spec_parse(input) == Ok::<_, Seq<char>>(
            (input, Seq::<Seq<char>>::empty()),
        ),
{
    lemma_separators_distinct();
    lemma_literal_texts();
    assert(is_punctuation('@'));
    lemma_space0_prefix(input);
    let (r1, w1) = spec_space0().spec_parse(input)->Ok_0;
    lemma_space0_prefix(r1);
    let (r2, w2) = spec_space0().spec_parse(r1)->Ok_0;
    let w = w1 + w2;
    assert(input =~= w + r2);
    assert(all_white(w)) by {
        assert forall|i: int| 0 <= i < w.len() implies #[trigger] is_white_space(w[i]) by {
            if i < w1.len() {
                assert(w[i] == w1[i]);
            } else {
                assert(w[i] == w2[i - w1.len()]);
            }
        }
    }
    if r2.len() > 0 {
        let k = w.len() as int;
        assert(input[k] == r2[0]);
        assert(input.take(k) =~= w);
        if !is_white_space(r2[0]) {
            assert(r2[0] != '@');
        }
    }
    lemma_literal_mismatch(Literal { expected: "@" }, r2);
}

/// A process text, in parentheses or not, is read back as that process,
/// along with the whitespace after it.
#[verifier::rlimit(60)]
#[verifier::spinoff_prover]
pub proof fn lemma_process_then_white(
    name: Seq<char>,
    onsucceed: Option<Seq<char>>,
    onfail: Option<Seq<char>>,
    silent: bool,
    w: Seq<char>,
    t: Seq<char>,
)
    requires
        is_valid_name(name),
        is_valid_target(onsucceed),
        is_valid_target(onfail),
        all_white(w),
        w.len() < UNBOUNDED_REPETITIONS,
        no_leading_white(t),
    ensures
        ProcessWithoutLogMonitors.spec_parse(process_text(name, onsucceed, onfail, silent) + w + t)
            == Ok::<_, Seq<char>>((t, described_process(name, onsucceed, onfail, silent))),
{
    lemma_separators_distinct();
    lemma_literal_texts();
    let text = plain_text(name, onsucceed, onfail);
    let body = (name, (onsucceed, onfail));
    if silent {
        lemma_silent_process_then_white(name, onsucceed, onfail, w, t);
        assert(process_view(body, true) == described_process(name, onsucceed, onfail, true));
    } else {
        let e = Seq::<char>::empty();
        let input = text + w + t;
        assert(all_white(e));
        lemma_name_start(name);
        assert(input[0] == name[0]);
        assert(is_punctuation('('));
        lemma_literal_mismatch(Literal { expected: "(" }, input);
        assert(e + input =~= input);
        lemma_whitespace_wrap_fails(Literal { expected: "(" }, e, input);
        lemma_plain_process_then_white(name, onsucceed, onfail, w, t);
        assert(process_view(body, false) == described_process(name, onsucceed, onfail, false));
    }
}

/// Log monitors written as a space, `@` and the name each.
pub open spec fn spaced_monitors(monitors: Seq<Seq<char>>) -> Seq<char>
    decreases monitors.len(),
{
    if monitors.len() == 0 {
        Seq::empty()
    } else {
        seq![' ', '@'] + monitors[0] + spaced_monitors(monitors.drop_first())
    }
}

/// Every element of `names` is a valid name.
pub open spec fn all_valid_monitor_names(names: Seq<Seq<char>>) -> bool {
    forall|i: int| 0 <= i < names.len() ==> is_valid_name(#[trigger] names[i])
}

#[verifier::rlimit(60)]
#[verifier::spinoff_prover]
proof fn lemma_spaced_monitors(monitors: Seq<Seq<char>>, done: nat)
    requires
        monitors.len() > 0,
        all_valid_monitor_names(monitors),
        done + monitors.len() <= UNBOUNDED_REPETITIONS,
    ensures
        repeat_outcome(
            spec_log_monitors().parser,
            spaced_monitors(monitors).drop_first(),
            0,
            UNBOUNDED_REPETITIONS as nat,
            done,
        ) == Ok::<_, Seq<char>>((Seq::<char>::empty(), monitors)),
    decreases monitors.len(),
{
    lemma_separators_distinct();
    lemma_literal_texts();
    let e = Seq::<char>::empty();
    assert(all_white(e));
    assert(is_punctuation('@'));
    let inner = Right {
        first: spec_whitespace_wrap(Literal { expected: "@" }),
        second: ProcessName,
        discarded: PhantomData::<()>,
    };
    assert(spec_log_monitors().parser == spec_whitespace_wrap(inner));
    let m = monitors[0];
    let tail = monitors.drop_first();
    assert(is_valid_name(m));
    lemma_name_start(m);
    let input = spaced_monitors(monitors).drop_first();
    assert(input =~= seq!['@'] + m + spaced_monitors(tail));
    // what follows this monitor's name: a space, or nothing
    let (w2, rest) = if tail.len() > 0 {
        (seq![' '], spaced_monitors(tail).drop_first())
    } else {
        (e, e)
    };
    assert(spaced_monitors(tail) =~= w2 + rest);
    assert(all_white(w2));
    if tail.len() > 0 {
        assert(all_valid_monitor_names(tail)) by {
            assert forall|i: int| 0 <= i < tail.len() implies is_valid_name(#[trigger] tail[i]) by {
                assert(tail[i] == monitors[i + 1]);
            }
        }
        assert(rest[0] == '@');
        lemma_spaced_monitors(tail, done + 1);
    } else {
        assert(rest =~= e);
        assert(tail =~= Seq::<Seq<char>>::empty());
        if done + 1 < UNBOUNDED_REPETITIONS {
            lemma_literal_mismatch(Literal { expected: "@" }, e);
            assert(e + e =~= e);
            lemma_whitespace_wrap_fails(Literal { expected: "@" }, e, e);
            lemma_whitespace_wrap_fails(inner, e, e);
        }
    }
    assert(no_leading_white(rest));
    // the `@`
    let after = m + w2 + rest;
    assert(after[0] == m[0]);
    lemma_literal_match(Literal { expected: "@" }, after);
    assert(seq!['@'] + e + after =~= "@"@ + after);
    assert(e + after =~= after);
    lemma_whitespace_wrap(Literal { expected: "@" }, e, seq!['@'], e, after, ());
    // the name
    assert(no_leading_name_char(w2 + rest)) by {
        if w2.len() > 0 {
            assert((w2 + rest)[0] == ' ');
            assert(!is_alphanumeric_char(' '));
        } else {
            assert(w2 + rest =~= e);
        }
    }
    assert(after =~= m + (w2 + rest));
    lemma_process_name(m, w2 + rest);
    assert(e + seq!['@'] + e + after =~= seq!['@'] + after);
    // the whitespace after it
    assert(seq!['@'] + m + w2 + rest =~= seq!['@'] + after);
    assert((seq!['@'] + m)[0] == '@');
    lemma_whitespace_wrap(inner, e, seq!['@'] + m, w2, rest, m);
    assert(e + (seq!['@'] + m) + w2 + rest =~= input);
    assert(spec_log_monitors().parser.spec_parse(input) == Ok::<_, Seq<char>>((rest, m)));
    assert(repeat_outcome(
        spec_log_monitors().parser,
        rest,
        0,
        UNBOUNDED_REPETITIONS as nat,
        done + 1,
    ) == Ok::<_, Seq<char>>((e, tail)));
    assert(seq![m] + tail =~= monitors);
}

/// Log monitors written after a process text, each as a space, `@` and its
/// name, come back in the order written, duplicates kept, with the other
/// fields as the process text alone gives them; with none the list is empty.
pub proof fn lemma_appended_monitors(
    name: Seq<char>,
    onsucceed: Option<Seq<char>>,
    onfail: Option<Seq<char>>,
    silent: bool,
    monitors: Seq<Seq<char>>,
)
    requires
        is_valid_name(name),
        is_valid_target(onsucceed),
        is_valid_target(onfail),
        all_valid_monitor_names(monitors),
        monitors.len() <= UNBOUNDED_REPETITIONS,
    ensures
        SingleProcess.spec_parse(process_text(name, onsucceed, onfail, silent)) == Ok::<
            _,
            Seq<char>,
        >((Seq::<char>::empty(), seq![described_process(name, onsucceed, onfail, silent)])),
        SingleProcess.spec_parse(
            process_text(name, onsucceed, onfail, silent) + spaced_monitors(monitors),
        ) == Ok::<_, Seq<char>>(
            (
                Seq::<char>::empty(),
                seq![
                    ProcessView {
                        log_monitors: monitors,
                        ..described_process(name, onsucceed, onfail, silent)
                    },
                ],
            ),
        ),
{
    lemma_separators_distinct();
    let e = Seq::<char>::empty();
    let text = process_text(name, onsucceed, onfail, silent);
    lemma_single_process(name, onsucceed, onfail, silent, e);
    assert(text + e =~= text);
    if monitors.len() == 0 {
        assert(spaced_monitors(monitors) =~= e);
        assert(text + spaced_monitors(monitors) =~= text);
        assert(monitors =~= Seq::<Seq<char>>::empty());
    } else {
        let rest = spaced_monitors(monitors).drop_first();
        assert(spaced_monitors(monitors) =~= seq![' '] + rest);
        assert(rest[0] == '@');
        assert(is_punctuation('@'));
        assert(all_white(seq![' ']));
        lemma_process_then_white(name, onsucceed, onfail, silent, seq![' '], rest);
        assert(text + spaced_monitors(monitors) =~= text + seq![' '] + rest);
        lemma_spaced_monitors(monitors, 0);
    }
}

/// A process text followed by whitespace and then something that does not
/// begin with whitespace or `@` is read as that process alone.
pub proof fn lemma_single_process_then_white(
    name: Seq<char>,
    onsucceed: Option<Seq<char>>,
    onfail: Option<Seq<char>>,
    silent: bool,
    w: Seq<char>,
    t: Seq<char>,
)
    requires
        is_valid_name(name),
        is_valid_target(onsucceed),
        is_valid_target(onfail),
        all_white(w),
        w.len() < UNBOUNDED_REPETITIONS,
        ends_process(t),
    ensures
        SingleProcess.spec_parse(process_text(name, onsucceed, onfail, silent) + w + t) == Ok::<
            _,
            Seq<char>,
        >((t, seq![described_process(name, onsucceed, onfail, silent)])),
{
    lemma_no_log_monitors(t);
    lemma_process_then_white(name, onsucceed, onfail, silent, w, t);
}

/// A process without log monitors whose names are valid.
pub open spec fn is_plain_valid(p: ProcessView) -> bool {
    &&& is_valid_name(p.name)
    &&& is_valid_target(p.onsucceed)
    &&& is_valid_target(p.onfail)
    &&& p.log_monitors.len() == 0
}

/// The text of such a process.
pub open spec fn view_text(p: ProcessView) -> Seq<char> {
    process_text(p.name, p.onsucceed, p.onfail, p.silent)
}

/// Process texts separated by single spaces.
pub open spec fn spaced_processes(processes: Seq<ProcessView>) -> Seq<char>
    decreases processes.len(),
{
    if processes.len() <= 1 {
        if processes.len() == 1 {
            view_text(processes[0])
        } else {
            Seq::empty()
        }
    } else {
        view_text(processes[0]) + seq![' '] + spaced_processes(processes.drop_first())
    }
}

#[verifier::rlimit(60)]
#[verifier::spinoff_prover]
proof fn lemma_spaced_group(processes: Seq<ProcessView>, t: Seq<char>, done: nat)
    requires
        processes.len() >= 1,
        forall|i: int| 0 <= i < processes.len() ==> is_plain_valid(#[trigger] processes[i]),
        t.len() > 0,
        t[0] == ']',
        done + processes.len() <= UNBOUNDED_REPETITIONS,
        done + processes.len() >= 2,
    ensures
        repeat_outcome(
            SingleProcess,
            spaced_processes(processes) + t,
            2,
            UNBOUNDED_REPETITIONS as nat,
            done,
        ) == Ok::<_, Seq<char>>((t, crate::round_trip::singletons(processes))),
    decreases processes.len(),
{
    lemma_separators_distinct();
    let p = processes[0];
    assert(is_plain_valid(p));
    let d = described_process(p.name, p.onsucceed, p.onfail, p.silent);
    assert(p.log_monitors =~= Seq::<Seq<char>>::empty());
    assert(d == p);
    let tail = processes.drop_first();
    let e = Seq::<char>::empty();
    assert(all_white(e));
    assert(is_punctuation(']'));
    if processes.len() == 1 {
        assert(spaced_processes(processes) =~= view_text(p));
        lemma_single_process_then_white(p.name, p.onsucceed, p.onfail, p.silent, e, t);
        assert(view_text(p) + e + t =~= view_text(p) + t);
        lemma_single_process_fails_on_close(t);
        assert(crate::round_trip::singletons(tail) =~= Seq::<Seq<ProcessView>>::empty());
        assert(repeat_outcome(SingleProcess, t, 2, UNBOUNDED_REPETITIONS as nat, done + 1) == Ok::<
            _,
            Seq<char>,
        >((t, Seq::<Seq<ProcessView>>::empty())));
    } else {
        assert(forall|i: int| 0 <= i < tail.len() ==> is_plain_valid(#[trigger] tail[i])) by {
            assert forall|i: int| 0 <= i < tail.len() implies is_plain_valid(#[trigger] tail[i]) by {
                assert(tail[i] == processes[i + 1]);
            }
        }
        let rest = spaced_processes(tail) + t;
        let q = tail[0];
        assert(is_plain_valid(q));
        lemma_name_start(q.name);
        assert(is_punctuation('(') && is_punctuation('@'));
        if tail.len() == 1 {
            assert(spaced_processes(tail) =~= view_text(q));
        } else {
            assert(spaced_processes(tail) =~= view_text(q) + seq![' '] + spaced_processes(
                tail.drop_first(),
            ));
        }
        assert(rest[0] == view_text(q)[0]);
        assert(view_text(q)[0] == '(' || view_text(q)[0] == q.name[0]);
        assert(all_white(seq![' ']));
        lemma_single_process_then_white(p.name, p.onsucceed, p.onfail, p.silent, seq![' '], rest);
        assert(spaced_processes(processes) + t =~= view_text(p) + seq![' '] + rest);
        lemma_spaced_group(tail, t, done + 1);
    }
}

/// A bracketed group of two or more processes separated by spaces is read
/// as those processes, in source order.
pub proof fn lemma_spaced_group_in_order(processes: Seq<ProcessView>)
    requires
        2 <= processes.len() <= UNBOUNDED_REPETITIONS,
        forall|i: int| 0 <= i < processes.len() ==> is_plain_valid(#[trigger] processes[i]),
    ensures
        ConcurrentProcesses.spec_parse(seq!['['] + spaced_processes(processes) + seq![']']) == Ok::<
            _,
            Seq<char>,
        >((Seq::<char>::empty(), processes)),
{
    lemma_separators_distinct();
    lemma_literal_texts();
    let e = Seq::<char>::empty();
    assert(all_white(e));
    let body = spaced_processes(processes);
    let close = seq![']'];
    let rest = body + close;
    let p = processes[0];
    assert(is_plain_valid(p));
    lemma_name_start(p.name);
    assert(spaced_processes(processes) =~= view_text(p) + seq![' '] + spaced_processes(
        processes.drop_first(),
    ));
    assert(rest[0] == view_text(p)[0]);
    assert(is_punctuation('[') && is_punctuation(']') && is_punctuation('('));
    assert(!is_white_space(seq!['['][0]) && !is_white_space(seq![']'][0]));
    lemma_literal_match(Literal { expected: "[" }, rest);
    assert(seq!['['] + e + rest =~= "["@ + rest);
    assert(e + rest =~= rest);
    lemma_whitespace_wrap(Literal { expected: "[" }, e, seq!['['], e, rest, ());
    lemma_spaced_group(processes, close, 0);
    lemma_literal_match(Literal { expected: "]" }, e);
    assert(seq![']'] + e + e =~= "]"@ + e);
    lemma_whitespace_wrap(Literal { expected: "]" }, e, seq![']'], e, e, ());
    assert(e + seq![']'] + e + e =~= close);
    assert(e + seq!['['] + e + rest =~= seq!['['] + body + close);
    crate::round_trip::lemma_flatten_singletons(processes);
}

} // verus!

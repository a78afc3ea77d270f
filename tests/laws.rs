use arpx_job_parser::parser::Parser;
use arpx_job_parser::process::{concurrent_processes, log_monitors, single_process, Process};
use arpx_job_parser::whitespace::whitespace_char;
use arpx_job_parser::{get_parse_error_context, parse_job, task, Job, Task};

fn process(name: &str, onsucceed: Option<&str>, onfail: Option<&str>, silent: bool) -> Process {
    Process {
        log_monitors: Vec::new(),
        name: name.to_string(),
        onsucceed: onsucceed.map(|s| s.to_string()),
        onfail: onfail.map(|s| s.to_string()),
        silent,
    }
}

fn write_process(p: &Process) -> String {
    let mut text = String::new();
    if p.silent {
        text.push('(');
    }
    text.push_str(&p.name);
    if let Some(s) = &p.onsucceed {
        text.push('?');
        text.push_str(s);
    }
    if let Some(f) = &p.onfail {
        text.push(':');
        text.push_str(f);
    }
    text.push(';');
    if p.silent {
        text.push(')');
    }
    for m in &p.log_monitors {
        text.push('@');
        text.push_str(m);
        text.push(' ');
    }
    text
}

fn write_job(job: &Job) -> String {
    let mut text = String::new();
    for task in &job.tasks {
        if task.processes.len() == 1 {
            text.push_str(&write_process(&task.processes[0]));
        } else {
            text.push('[');
            for p in &task.processes {
                text.push_str(&write_process(p));
            }
            text.push(']');
        }
    }
    text
}

#[test]
fn both_targets_are_read() -> Result<(), String> {
    let expected = vec![process("build-1", Some("test_2"), Some("Fix3"), false)];
    assert_eq!(single_process().parse("build-1 ? test_2 : Fix3;")?, ("", expected));
    Ok(())
}

#[test]
fn parentheses_make_a_process_silent() -> Result<(), String> {
    let plain = single_process().parse("loop1 ? loop2 : loop3;")?;
    let silent = single_process().parse("(loop1 ? loop2 : loop3;)")?;
    assert_eq!(plain.1, vec![process("loop1", Some("loop2"), Some("loop3"), false)]);
    assert_eq!(silent.1, vec![process("loop1", Some("loop2"), Some("loop3"), true)]);
    assert_eq!(single_process().parse("(loop1;)")?, ("", vec![process("loop1", None, None, true)]));
    Ok(())
}

#[test]
fn a_group_of_one_is_refused() -> Result<(), String> {
    assert_eq!(concurrent_processes().parse("[loop1;]"), Err("]"));
    let error = parse_job("[loop1;]").unwrap_err();
    assert_eq!(error, ((1, 0), " !ERROR-> [loop1;]".to_string()));
    Ok(())
}

#[test]
fn a_group_keeps_source_order() -> Result<(), String> {
    let expected = vec![
        process("c", None, None, false),
        process("a", None, None, true),
        process("b", None, None, false),
    ];
    assert_eq!(concurrent_processes().parse("[c; (a;) b;]")?, ("", expected));
    Ok(())
}

#[test]
fn log_monitors_keep_their_order() -> Result<(), String> {
    let (rest, processes) = single_process().parse("loop1; @a @b @c")?;
    assert_eq!(rest, "");
    assert_eq!(processes[0].log_monitors, vec!["a".to_string(), "b".to_string(), "c".to_string()]);
    let (_, processes) = single_process().parse("loop1;")?;
    assert!(processes[0].log_monitors.is_empty());
    let (_, processes) = single_process().parse("loop1; @a @a")?;
    assert_eq!(processes[0].log_monitors, vec!["a".to_string(), "a".to_string()]);
    Ok(())
}

#[test]
fn writing_out_and_parsing_gives_the_tree_back() -> Result<(), ((usize, usize), String)> {
    let source = r#"
        [
            (loop1 ? loop2 : loop3;) @m1 @m2
            loop2 ? loop3 : loop4;
        ]
        loop3 ? loop4 : loop5; @m3
        loop6;
        (loop7 : loop8;)
        [ ? loop9; ; @ ]
    "#;
    let parsed = parse_job(source)?;
    let text = write_job(&parsed);
    assert_eq!(
        text,
        "[(loop1?loop2:loop3;)@m1 @m2 loop2?loop3:loop4;]loop3?loop4:loop5;@m3 loop6;(loop7:loop8;)[?loop9;;@ ]"
    );
    let reparsed = parse_job(&text)?;
    assert_eq!(parsed, reparsed);
    Ok(())
}

#[test]
fn error_points_at_the_unfinished_process() {
    let error = parse_job("loop1;\nloop2\n").unwrap_err();
    assert_eq!(error, ((2, 0), "loop1;\n !ERROR-> loop2\n".to_string()));
}

#[test]
fn end_to_end_job() -> Result<(), ((usize, usize), String)> {
    let source = r#"
[
    (loop1 ? loop2 : loop3;)
    loop2 ? loop3 : loop4;
]
loop3 ? loop4 : loop5;
loop6;
(loop7 ? loop8;)
"#;
    let expected = Job {
        tasks: vec![
            Task {
                processes: vec![
                    process("loop1", Some("loop2"), Some("loop3"), true),
                    process("loop2", Some("loop3"), Some("loop4"), false),
                ],
            },
            Task { processes: vec![process("loop3", Some("loop4"), Some("loop5"), false)] },
            Task { processes: vec![process("loop6", None, None, false)] },
            Task { processes: vec![process("loop7", Some("loop8"), None, true)] },
        ],
    };
    assert_eq!(parse_job(source)?, expected);
    Ok(())
}

#[test]
fn empty_input_is_an_error() {
    assert_eq!(parse_job(""), Err(((1, 0), " !ERROR-> ".to_string())));
    assert_eq!(parse_job("   \n  "), Err(((1, 0), " !ERROR->    \n  ".to_string())));
}

#[test]
fn trailing_text_is_an_error() {
    let error = parse_job("loop1;\n  } rest").unwrap_err();
    assert_eq!(error, ((2, 2), "loop1;\n   !ERROR-> } rest".to_string()));
}

#[test]
fn error_context_is_clamped_at_both_ends() {
    let source = "abc";
    assert_eq!(get_parse_error_context(source, &source[1..]), ((1, 1), "a !ERROR-> bc".to_string()));
    assert_eq!(get_parse_error_context(source, ""), ((1, 3), "abc !ERROR-> ".to_string()));
}

#[test]
fn error_columns_count_characters() {
    let source = "é;\nñx}";
    let remaining = &source[source.len() - 1..];
    assert_eq!(get_parse_error_context(source, remaining), ((2, 2), "é;\nñx !ERROR-> }".to_string()));
}

#[test]
fn names_may_hold_letters_beyond_ascii() -> Result<(), String> {
    let expected = vec![process("ümlaut-步骤", Some("x_1"), None, false)];
    assert_eq!(single_process().parse("ümlaut-步骤 ? x_1;")?, ("", expected));
    Ok(())
}

#[test]
fn whitespace_char_follows_unicode() -> Result<(), String> {
    assert_eq!(whitespace_char().parse("\t")?, ("", '\t'));
    assert_eq!(whitespace_char().parse("\u{a0}x")?, ("x", '\u{a0}'));
    assert_eq!(whitespace_char().parse("x"), Err("x"));
    Ok(())
}

#[test]
fn whitespace_before_the_semicolon_is_allowed() -> Result<(), String> {
    let expected = vec![process("loop1", Some("loop2"), None, false)];
    assert_eq!(single_process().parse("loop1 ? loop2 ;")?, ("", expected));
    assert_eq!(single_process().parse("loop1 ;")?, ("", vec![process("loop1", None, None, false)]));
    assert_eq!(single_process().parse("(loop1 ; )")?, ("", vec![process("loop1", None, None, true)]));
    Ok(())
}

#[test]
fn whitespace_after_the_at_sign_is_allowed() -> Result<(), String> {
    let (rest, processes) = single_process().parse("loop1; @ foo @bar")?;
    assert_eq!(rest, "");
    assert_eq!(processes[0].log_monitors, vec!["foo".to_string(), "bar".to_string()]);
    Ok(())
}

#[test]
fn log_monitors_consume_nothing_without_an_at_sign() -> Result<(), String> {
    assert_eq!(log_monitors().parse("  loop2;")?, ("  loop2;", vec![]));
    assert_eq!(log_monitors().parse("")?, ("", vec![]));
    Ok(())
}

#[test]
fn a_bracketed_single_process_is_no_task() {
    assert!(task().parse("[loop1;]").is_err());
    assert!(task().parse("  [  (loop1 ? loop2;)]  ").is_err());
    assert!(concurrent_processes().parse(" [ loop1 ; ] rest").is_err());
}

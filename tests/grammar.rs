use arpx_job_parser::parser::Parser;
use arpx_job_parser::process::{concurrent_processes, single_process, Process};
use arpx_job_parser::{get_parse_error_context, job, parse_job, task, Job, ParseErrorContext, Task};

fn process(name: &str, onsucceed: Option<&str>, onfail: Option<&str>, silent: bool) -> Process {
    Process {
        log_monitors: Vec::new(),
        name: name.to_string(),
        onsucceed: onsucceed.map(|s| s.to_string()),
        onfail: onfail.map(|s| s.to_string()),
        silent,
    }
}

#[test]
fn test_job() -> Result<(), String> {
    let example = r#"
            [
                (loop1 ? loop2 : loop3;)
                loop2 ? loop3 : loop4;
            ]
            loop3 ? loop4 : loop5;
            loop6;
            (loop7 ? loop8;)
        "#;

    let expected = (
        "",
        Job {
            tasks: vec![
                Task {
                    processes: vec![
                        Process {
                            log_monitors: Vec::new(),
                            name: "loop1".to_string(),
                            onsucceed: Some("loop2".to_string()),
                            onfail: Some("loop3".to_string()),
                            silent: true,
                        },
                        Process {
                            log_monitors: Vec::new(),
                            name: "loop2".to_string(),
                            onsucceed: Some("loop3".to_string()),
                            onfail: Some("loop4".to_string()),
                            silent: false,
                        },
                    ],
                },
                Task {
                    processes: vec![Process {
                        log_monitors: Vec::new(),
                        name: "loop3".to_string(),
                        onsucceed: Some("loop4".to_string()),
                        onfail: Some("loop5".to_string()),
                        silent: false,
                    }],
                },
                Task {
                    processes: vec![Process {
                        log_monitors: Vec::new(),
                        name: "loop6".to_string(),
                        onsucceed: None,
                        onfail: None,
                        silent: false,
                    }],
                },
                Task {
                    processes: vec![Process {
                        log_monitors: Vec::new(),
                        name: "loop7".to_string(),
                        onsucceed: Some("loop8".to_string()),
                        onfail: None,
                        silent: true,
                    }],
                },
            ],
        },
    );

    assert_eq!(job().parse(example)?, expected);
    Ok(())
}

#[test]
fn test_process() -> Result<(), String> {
    let example = "loop1;";

    let expected = vec![process("loop1", None, None, false)];

    assert_eq!(single_process().parse(example)?, ("", expected));
    Ok(())
}

#[test]
fn test_process_with_only_onsucceed() -> Result<(), String> {
    let example = "loop1 ? loop2;";

    let expected = vec![process("loop1", Some("loop2"), None, false)];

    assert_eq!(single_process().parse(example)?, ("", expected));
    Ok(())
}

#[test]
fn test_process_with_only_onfail() -> Result<(), String> {
    let example = "loop1 : loop3;";

    let expected = vec![process("loop1", None, Some("loop3"), false)];

    assert_eq!(single_process().parse(example)?, ("", expected));
    Ok(())
}

#[test]
fn test_process_with_onsucceed_and_onfail() -> Result<(), String> {
    let example = "loop1 ? loop2 : loop3;";

    let expected = vec![process("loop1", Some("loop2"), Some("loop3"), false)];

    assert_eq!(single_process().parse(example)?, ("", expected));
    Ok(())
}

#[test]
fn test_concurrent_processes() -> Result<(), String> {
    let example = r#"
            [
                loop1 ? loop2 : loop3;
                loop2 ? loop3 : loop4;
                loop3 ? loop4 : loop5;
            ]
        "#;

    let expected = vec![
        process("loop1", Some("loop2"), Some("loop3"), false),
        process("loop2", Some("loop3"), Some("loop4"), false),
        process("loop3", Some("loop4"), Some("loop5"), false),
    ];

    assert_eq!(concurrent_processes().parse(example)?, ("", expected));
    Ok(())
}

#[test]
fn test_concurrent_processes_must_have_2_single_processes() -> Result<(), String> {
    let example_1 = "[loop1 ? loop2 : loop3;]";
    let example_2 = "[loop1 ? loop2 : loop3; loop2 ? loop3;]";

    let expected_2 = vec![
        process("loop1", Some("loop2"), Some("loop3"), false),
        process("loop2", Some("loop3"), None, false),
    ];

    assert_eq!(concurrent_processes().parse(example_1), Err("]"));
    assert_eq!(concurrent_processes().parse(example_2)?, ("", expected_2));
    Ok(())
}

#[test]
fn test_process_with_log_monitors() -> Result<(), String> {
    let example = "loop1; @foo @bar @baz";

    let expected = vec![Process {
        log_monitors: vec!["foo".to_string(), "bar".to_string(), "baz".to_string()],
        name: "loop1".to_string(),
        onsucceed: None,
        onfail: None,
        silent: false,
    }];

    assert_eq!(single_process().parse(example)?, ("", expected));
    Ok(())
}

#[test]
fn test_concurrent_processes_with_log_monitors() -> Result<(), String> {
    let example = r#"
            [
                loop1 ? loop2 : loop3; @foo @bar
                loop2 ? loop3 : loop4;
                loop3 ? loop4 : loop5; @baz
            ]
        "#;

    let expected = vec![
        Process {
            log_monitors: vec!["foo".to_string(), "bar".to_string()],
            name: "loop1".to_string(),
            onsucceed: Some("loop2".to_string()),
            onfail: Some("loop3".to_string()),
            silent: false,
        },
        process("loop2", Some("loop3"), Some("loop4"), false),
        Process {
            log_monitors: vec!["baz".to_string()],
            name: "loop3".to_string(),
            onsucceed: Some("loop4".to_string()),
            onfail: Some("loop5".to_string()),
            silent: false,
        },
    ];

    assert_eq!(concurrent_processes().parse(example)?, ("", expected));
    Ok(())
}

#[test]
fn test_single_task() -> Result<(), String> {
    let example = r#"
            loop1 ? loop2 : loop3;
        "#;

    let expected = Task {
        processes: vec![process("loop1", Some("loop2"), Some("loop3"), false)],
    };

    assert_eq!(task().parse(example)?, ("", expected));
    Ok(())
}

#[test]
fn test_concurrent_task() -> Result<(), String> {
    let example = r#"
            [
                loop1 ? loop2 : loop3;
                loop2 ? loop3 : loop4;
            ]
        "#;

    let expected = Task {
        processes: vec![
            process("loop1", Some("loop2"), Some("loop3"), false),
            process("loop2", Some("loop3"), Some("loop4"), false),
        ],
    };

    assert_eq!(task().parse(example)?, ("", expected));
    Ok(())
}

#[test]
fn test_parse_error_context() -> Result<(), ParseErrorContext> {
    let source = r#"Lorem ipsum dolor sit amet, consectetur adipiscing elit.
Phasellus vulputate euismod luctus. Praesent viverra
dapibus nisl at feugiat. Fusce pellentesque augue ac nibh
tristique, nec tincidunt mauris lobortis. Vestibulum ante
ipsum primis in faucibus orci luctus et ultrices posuere
cubilia curae; Nam at ullamcorper ex. Nam pulvinar ligula
odio, eu pharetra arcu sagittis non. Phasellus ligula
massa, vestibulum eu diam vel, pharetra consequat enim.
Suspendisse potenti. Nullam consectetur ipsum sit amet eros
eleifend, id bibendum purus maximus. Praesent a libero sed
velit placerat placerat. Nam nec mi in magna vestibulum
dignissim quis ac lacus. Sed suscipit consequat auctor.
Proin commodo nibh a ultricies scelerisque. Pellentesque
pulvinar dui sed dolor interdum interdum. Vivamus dapibus
eros eu dolor faucibus interdum. Phasellus blandit sed
ipsum sed vestibulum."#;
    let remaining = &source[651..];

    let result = get_parse_error_context(source, remaining);

    let expected = (
        (12, 25),
        "ssim quis ac lacus.  !ERROR-> Sed suscipit consequ".to_string(),
    );

    assert_eq!(result, expected);
    Ok(())
}

#[test]
fn test_parse_job() -> Result<(), ParseErrorContext> {
    let example = r#"
            [
                loop1 ? loop2 : loop3; @monitor_1 @monitor_2
                loop2 ? loop3 : loop4;
            ]
            loop3 ? loop4 : loop5; @monitor_3
            loop6;
            loop7 ? loop8; @monitor_4
        "#;

    let expected = Job {
        tasks: vec![
            Task {
                processes: vec![
                    Process {
                        log_monitors: vec!["monitor_1".to_string(), "monitor_2".to_string()],
                        name: "loop1".to_string(),
                        onsucceed: Some("loop2".to_string()),
                        onfail: Some("loop3".to_string()),
                        silent: false,
                    },
                    Process {
                        log_monitors: Vec::new(),
                        name: "loop2".to_string(),
                        onsucceed: Some("loop3".to_string()),
                        onfail: Some("loop4".to_string()),
                        silent: false,
                    },
                ],
            },
            Task {
                processes: vec![Process {
                    log_monitors: vec!["monitor_3".to_string()],
                    name: "loop3".to_string(),
                    onsucceed: Some("loop4".to_string()),
                    onfail: Some("loop5".to_string()),
                    silent: false,
                }],
            },
            Task {
                processes: vec![Process {
                    log_monitors: Vec::new(),
                    name: "loop6".to_string(),
                    onsucceed: None,
                    onfail: None,
                    silent: false,
                }],
            },
            Task {
                processes: vec![Process {
                    log_monitors: vec!["monitor_4".to_string()],
                    name: "loop7".to_string(),
                    onsucceed: Some("loop8".to_string()),
                    onfail: None,
                    silent: false,
                }],
            },
        ],
    };

    assert_eq!(parse_job(example)?, expected);
    Ok(())
}

use lintrunner::board::{BoardError, RunBoard, Step};
use lintrunner::issue::{LintIssue, LinterOutcome, Severity};
use lintrunner::orchestrate::{classify, frame_records, ParsedRecord, ProcessRun, Record};
use lintrunner::layout::{layout_default, paint, render_default, Piece, Tone};
use lintrunner::render::{render, render_json, render_oneline, render_run, RenderFormat};
use lintrunner::report::{exit_code, ReportEntry};
use lintrunner::style::{color_for, settle_colors};

fn issue(linter: &str, severity: Severity, path: &str, message: &str) -> LintIssue {
    LintIssue {
        linter: linter.to_string(),
        severity,
        path: path.to_string(),
        line: None,
        column: None,
        message: message.to_string(),
        code: None,
        replacement: None,
    }
}

fn parsed(severity: Severity, path: &str, message: &str) -> Record {
    Record::Parsed(ParsedRecord {
        severity,
        path: path.to_string(),
        line: Some(3),
        column: Some(7),
        message: message.to_string(),
        code: Some("E1".to_string()),
        replacement: None,
    })
}

fn names(list: &[&str]) -> Vec<String> {
    list.iter().map(|s| s.to_string()).collect()
}

/// The aggregated stream of the named linters, all started, of which those
/// with an outcome have reported.
fn merge_outcomes(linters: &Vec<String>, slots: &Vec<Option<LinterOutcome>>) -> Vec<ReportEntry> {
    let mut board = RunBoard::new(linters.clone(), linters.len());
    for rank in 0..linters.len() {
        assert_eq!(board.next_step(), Step::Start(rank));
    }
    for (rank, slot) in slots.iter().enumerate() {
        if let Some(outcome) = slot {
            assert_eq!(board.record(rank, outcome.clone()), Ok(()));
        }
    }
    board.stream()
}

#[test]
fn frames_one_record_per_non_empty_line() {
    let framed = frame_records(&b"{\"a\":1}\n\n{\"b\":2}\n".to_vec());
    assert_eq!(framed, vec![b"{\"a\":1}".to_vec(), b"{\"b\":2}".to_vec()]);
    assert_eq!(frame_records(&Vec::new()), Vec::<Vec<u8>>::new());
    assert_eq!(frame_records(&b"\n\n".to_vec()), Vec::<Vec<u8>>::new());
    assert_eq!(frame_records(&vec![0xff, 0xfe, 10, 65]), vec![vec![0xff, 0xfe], vec![65]]);
}

#[test]
fn no_issues_and_exit_zero_is_issues_empty() {
    let run = ProcessRun::Exited { code: 0, records: vec![], stderr: "noise".to_string() };
    assert_eq!(classify(&"flake8".to_string(), &run), LinterOutcome::Issues(vec![]));
}

#[test]
fn process_that_cannot_be_spawned_is_one_failure() {
    let run = ProcessRun::NotSpawned { error: "No such file or directory".to_string() };
    let outcome = classify(&"ghost".to_string(), &run);
    assert_eq!(
        outcome,
        LinterOutcome::ProcessFailure {
            exit_code: None,
            stderr: "No such file or directory".to_string()
        }
    );
    let stream = merge_outcomes(&names(&["ghost"]), &vec![Some(outcome)]);
    assert_eq!(
        stream,
        vec![ReportEntry::Failure {
            linter: "ghost".to_string(),
            exit_code: None,
            stderr: "No such file or directory".to_string()
        }]
    );
    assert_eq!(exit_code(&stream), 1);
}

#[test]
fn non_zero_exit_without_parsed_records_is_a_failure() {
    let run = ProcessRun::Exited { code: 2, records: vec![], stderr: "crash".to_string() };
    assert_eq!(
        classify(&"mypy".to_string(), &run),
        LinterOutcome::ProcessFailure { exit_code: Some(2), stderr: "crash".to_string() }
    );
    let only_malformed = ProcessRun::Exited {
        code: 2,
        records: vec![Record::Malformed { raw: "{".to_string(), reason: "EOF".to_string() }],
        stderr: "crash".to_string(),
    };
    assert_eq!(
        classify(&"mypy".to_string(), &only_malformed),
        LinterOutcome::ProcessFailure { exit_code: Some(2), stderr: "crash".to_string() }
    );
}

#[test]
fn non_zero_exit_with_parsed_records_is_classified_by_the_issues() {
    let run = ProcessRun::Exited {
        code: 1,
        records: vec![
            parsed(Severity::Warning, "/r/a.py", "unused"),
            Record::Malformed { raw: "{oops".to_string(), reason: "bad json".to_string() },
        ],
        stderr: String::new(),
    };
    let outcome = classify(&"flake8".to_string(), &run);
    let expected = LinterOutcome::Issues(vec![
        LintIssue {
            linter: "flake8".to_string(),
            severity: Severity::Warning,
            path: "/r/a.py".to_string(),
            line: Some(3),
            column: Some(7),
            message: "unused".to_string(),
            code: Some("E1".to_string()),
            replacement: None,
        },
        LintIssue {
            linter: "flake8".to_string(),
            severity: Severity::Error,
            path: String::new(),
            line: None,
            column: None,
            message: "bad json: {oops".to_string(),
            code: Some("PARSE-ERROR".to_string()),
            replacement: None,
        },
    ]);
    assert_eq!(outcome, expected);
}

#[test]
fn malformed_record_with_exit_zero_is_a_parse_error_issue() {
    let run = ProcessRun::Exited {
        code: 0,
        records: vec![Record::Malformed { raw: "x".to_string(), reason: "r".to_string() }],
        stderr: String::new(),
    };
    match classify(&"l".to_string(), &run) {
        LinterOutcome::Issues(issues) => {
            assert_eq!(issues.len(), 1);
            assert_eq!(issues[0].severity, Severity::Error);
            assert_eq!(issues[0].linter, "l");
            assert_eq!(issues[0].message, "r: x");
        }
        other => panic!("unexpected outcome {:?}", other),
    }
}

#[test]
fn exit_code_follows_errors_and_failures() {
    let a_warning = vec![
        Some(LinterOutcome::Issues(vec![issue("A", Severity::Warning, "/r/x", "w")])),
        Some(LinterOutcome::Issues(vec![])),
    ];
    assert_eq!(exit_code(&merge_outcomes(&names(&["A", "B"]), &a_warning)), 0);
    let an_error = vec![
        Some(LinterOutcome::Issues(vec![issue("A", Severity::Error, "/r/x", "e")])),
        Some(LinterOutcome::Issues(vec![])),
    ];
    assert_eq!(exit_code(&merge_outcomes(&names(&["A", "B"]), &an_error)), 1);
    let a_failure =
        vec![Some(LinterOutcome::ProcessFailure { exit_code: Some(3), stderr: String::new() })];
    assert_eq!(exit_code(&merge_outcomes(&names(&["A"]), &a_failure)), 1);
    assert_eq!(exit_code(&Vec::new()), 0);
    let advice = vec![Some(LinterOutcome::Issues(vec![issue("A", Severity::Advice, "/r/x", "a")]))];
    assert_eq!(exit_code(&merge_outcomes(&names(&["A"]), &advice)), 0);
}

#[test]
fn merge_keeps_registration_order_then_emission_order() {
    let slots = vec![
        Some(LinterOutcome::Issues(vec![
            issue("A", Severity::Warning, "/r/1", "a1"),
            issue("A", Severity::Warning, "/r/2", "a2"),
        ])),
        None,
        Some(LinterOutcome::ProcessFailure { exit_code: Some(9), stderr: "c".to_string() }),
        Some(LinterOutcome::Issues(vec![issue("D", Severity::Error, "/r/1", "d1")])),
    ];
    let stream = merge_outcomes(&names(&["A", "B", "C", "D"]), &slots);
    assert_eq!(
        stream,
        vec![
            ReportEntry::Finding(issue("A", Severity::Warning, "/r/1", "a1")),
            ReportEntry::Finding(issue("A", Severity::Warning, "/r/2", "a2")),
            ReportEntry::Failure { linter: "C".to_string(), exit_code: Some(9), stderr: "c".to_string() },
            ReportEntry::Finding(issue("D", Severity::Error, "/r/1", "d1")),
        ]
    );
}

#[test]
fn board_bounds_the_number_of_running_linters() {
    let mut board = RunBoard::new(names(&["A", "B", "C"]), 2);
    assert_eq!(board.len(), 3);
    assert_eq!(board.limit(), 2);
    assert_eq!(board.next_step(), Step::Start(0));
    assert_eq!(board.next_step(), Step::Start(1));
    assert_eq!(board.running(), 2);
    assert_eq!(board.next_step(), Step::Wait);
    assert_eq!(board.record(1, LinterOutcome::Issues(vec![])), Ok(()));
    assert_eq!(board.running(), 1);
    assert_eq!(board.next_step(), Step::Start(2));
    assert_eq!(board.next_step(), Step::Wait);
    assert!(!board.is_done());
    assert_eq!(board.final_stream(), None);
    assert_eq!(board.started(), 3);
    assert_eq!(board.finished(), 1);
    assert_eq!(board.record(0, LinterOutcome::Issues(vec![])), Ok(()));
    assert_eq!(board.record(2, LinterOutcome::Issues(vec![])), Ok(()));
    assert_eq!(board.next_step(), Step::Done);
    assert!(board.is_done());
}

#[test]
fn board_with_no_parallelism_uses_one_worker() {
    let mut board = RunBoard::new(names(&["A", "B"]), 0);
    assert_eq!(board.limit(), 1);
    assert_eq!(board.next_step(), Step::Start(0));
    assert_eq!(board.next_step(), Step::Wait);
    let mut empty = RunBoard::new(Vec::new(), 4);
    assert_eq!(empty.next_step(), Step::Done);
    assert!(empty.is_done());
}

#[test]
fn board_takes_each_outcome_once() {
    let mut board = RunBoard::new(names(&["A", "B"]), 4);
    assert_eq!(board.record(0, LinterOutcome::Issues(vec![])), Err(BoardError::UnknownRank));
    assert_eq!(board.next_step(), Step::Start(0));
    assert_eq!(board.record(1, LinterOutcome::Issues(vec![])), Err(BoardError::UnknownRank));
    assert_eq!(board.record(7, LinterOutcome::Issues(vec![])), Err(BoardError::UnknownRank));
    let failure = LinterOutcome::ProcessFailure { exit_code: None, stderr: "x".to_string() };
    assert_eq!(board.record(0, failure), Ok(()));
    assert_eq!(board.record(0, LinterOutcome::Issues(vec![])), Err(BoardError::AlreadyRecorded));
    assert_eq!(
        board.stream(),
        vec![ReportEntry::Failure { linter: "A".to_string(), exit_code: None, stderr: "x".to_string() }]
    );
}

fn outcomes() -> Vec<LinterOutcome> {
    vec![
        LinterOutcome::Issues(vec![
            issue("A", Severity::Warning, "/r/one.py", "first"),
            issue("A", Severity::Error, "/r/two.py", "second"),
        ]),
        LinterOutcome::ProcessFailure { exit_code: Some(2), stderr: "boom".to_string() },
        LinterOutcome::Issues(vec![issue("C", Severity::Advice, "/r/one.py", "third")]),
    ]
}

fn run_in_order(order: &[usize]) -> Vec<ReportEntry> {
    let mut board = RunBoard::new(names(&["A", "B", "C"]), 3);
    assert_eq!(board.next_step(), Step::Start(0));
    assert_eq!(board.next_step(), Step::Start(1));
    assert_eq!(board.next_step(), Step::Start(2));
    for &rank in order {
        assert_eq!(board.record(rank, outcomes()[rank].clone()), Ok(()));
    }
    assert!(board.is_done());
    assert_eq!(board.final_stream(), Some(board.stream()));
    board.stream()
}

#[test]
fn rendering_does_not_depend_on_completion_order() {
    let one = run_in_order(&[0, 1, 2]);
    let other = run_in_order(&[2, 0, 1]);
    assert_eq!(one, other);
    for format in [RenderFormat::Default, RenderFormat::Json, RenderFormat::Oneline] {
        for color in [false, true] {
            let a = render(&one, format, color);
            let b = render(&other, format, color);
            assert_eq!(a.as_bytes(), b.as_bytes());
            assert_eq!(a, render(&one, format, color));
        }
    }
}

#[test]
fn oneline_format_is_one_line_per_entry() {
    let mut first = issue("FLAKE8", Severity::Error, "/r/a.py", "line too\nlong\r!");
    first.line = Some(10);
    first.column = Some(5);
    first.code = Some("E501".to_string());
    let mut second = issue("BLACK", Severity::Warning, "/r/b.py", "reformat");
    second.line = Some(4);
    let third = issue("NOQA", Severity::Advice, "/r/c.py", "hint");
    let entries = vec![
        ReportEntry::Finding(first),
        ReportEntry::Finding(second),
        ReportEntry::Finding(third),
        ReportEntry::Failure { linter: "MYPY".to_string(), exit_code: Some(-2), stderr: "a\nb".to_string() },
        ReportEntry::Failure { linter: "GONE".to_string(), exit_code: None, stderr: "not found".to_string() },
    ];
    let text = render_oneline(&entries);
    assert_eq!(
        text,
        "/r/a.py:10:5: error [FLAKE8/E501] line too long !\n\
         /r/b.py:4: warning [BLACK] reformat\n\
         /r/c.py: advice [NOQA] hint\n\
         error [MYPY] linter failed with exit code -2: a b\n\
         error [GONE] linter could not be started: not found\n"
    );
    assert_eq!(text.lines().count(), entries.len());
    assert_eq!(render_oneline(&Vec::new()), "");
}

#[test]
fn json_format_is_one_object_per_entry() {
    let mut first = issue("FLAKE8", Severity::Error, "/r/a \"b\".py", "tab\there\\ \u{1}\nnew");
    first.line = Some(18446744073709551615);
    first.code = Some("E501".to_string());
    first.replacement = Some("fixed\r\n".to_string());
    let entries = vec![
        ReportEntry::Finding(first),
        ReportEntry::Failure { linter: "MYPY".to_string(), exit_code: Some(2147483647), stderr: "é".to_string() },
        ReportEntry::Failure { linter: "GONE".to_string(), exit_code: None, stderr: String::new() },
    ];
    let text = render_json(&entries);
    let expected = String::new()
        + "{\"kind\":\"issue\",\"linter\":\"FLAKE8\",\"severity\":\"error\",\"path\":\"/r/a \\\"b\\\".py\","
        + "\"line\":18446744073709551615,\"column\":null,"
        + "\"message\":\"tab\\there\\\\ \\u0001\\nnew\",\"code\":\"E501\",\"replacement\":\"fixed\\r\\n\"}\n"
        + "{\"kind\":\"failure\",\"linter\":\"MYPY\",\"exit_code\":2147483647,\"stderr\":\"é\"}\n"
        + "{\"kind\":\"failure\",\"linter\":\"GONE\",\"exit_code\":null,\"stderr\":\"\"}\n";
    assert_eq!(text, expected);
    for line in text.lines() {
        let value: serde_json::Value = serde_json::from_str(line).unwrap();
        assert!(value.is_object());
    }
    let value: serde_json::Value = serde_json::from_str(text.lines().next().unwrap()).unwrap();
    assert_eq!(value["message"].as_str().unwrap(), "tab\there\\ \u{1}\nnew");
    assert_eq!(value["path"].as_str().unwrap(), "/r/a \"b\".py");
    let low = ReportEntry::Failure { linter: "L".to_string(), exit_code: Some(-2147483648), stderr: "\u{1f}".to_string() };
    assert_eq!(
        render_json(&vec![low]),
        "{\"kind\":\"failure\",\"linter\":\"L\",\"exit_code\":-2147483648,\"stderr\":\"\\u001f\"}\n"
    );
}

#[test]
fn default_format_groups_by_file() {
    let mut one = issue("A", Severity::Warning, "/r/one.py", "first");
    one.line = Some(1);
    one.column = Some(2);
    one.code = Some("W1".to_string());
    let mut two = issue("A", Severity::Error, "/r/two.py", "second");
    two.line = Some(9);
    let entries = vec![
        ReportEntry::Finding(one),
        ReportEntry::Finding(two),
        ReportEntry::Failure { linter: "B".to_string(), exit_code: Some(2), stderr: "boom".to_string() },
        ReportEntry::Finding(issue("C", Severity::Advice, "/r/one.py", "third")),
    ];
    let plain = render_default(&entries, false);
    assert_eq!(
        plain,
        ">>> Lint for /r/one.py:\n\
         \x20 Warning (A) W1 at line 1, column 2\n\
         \x20   first\n\
         \x20 Advice (C)\n\
         \x20   third\n\
         \n\
         >>> Lint for /r/two.py:\n\
         \x20 Error (A) at line 9\n\
         \x20   second\n\
         \n\
         >>> General linter failure:\n\
         \x20 Error (B) linter failed with exit code 2\n\
         \x20   boom\n\
         \n"
    );
    assert_eq!(render_default(&Vec::new(), true), "");
    let nameless = vec![
        ReportEntry::Finding(issue("P", Severity::Error, "", "bad json: {")),
        ReportEntry::Failure { linter: "Q".to_string(), exit_code: None, stderr: "gone".to_string() },
    ];
    assert_eq!(
        render_default(&nameless, false),
        ">>> General linter failure:\n\
         \x20 Error (P)\n\
         \x20   bad json: {\n\
         \x20 Error (Q) linter could not be started\n\
         \x20   gone\n\
         \n"
    );
}

#[test]
fn default_format_styles_the_severity_when_color_is_on() {
    let entries = vec![ReportEntry::Finding(issue("A", Severity::Error, "/r/x", "m"))];
    let colored = render_default(&entries, true);
    let plain = render_default(&entries, false);
    assert_ne!(colored, plain);
    assert!(colored.contains("\x1b[31m"));
    assert!(colored.contains("\x1b[1m"));
    assert!(colored.contains("Error\x1b[0m"));
    assert!(colored.contains(">>> Lint for /r/x:\x1b[0m\n"));
    assert!(!plain.contains('\x1b'));
}

fn piece(tone: Tone, text: &str) -> Piece {
    Piece { tone, text: text.to_string() }
}

#[test]
fn layout_is_made_of_toned_pieces() {
    let mut one = issue("A", Severity::Warning, "/r/one.py", "first");
    one.line = Some(1);
    one.code = Some("W1".to_string());
    let entries = vec![
        ReportEntry::Finding(one),
        ReportEntry::Failure { linter: "B".to_string(), exit_code: Some(2), stderr: "boom".to_string() },
        ReportEntry::Finding(issue("C", Severity::Advice, "/r/one.py", "third")),
    ];
    let pieces = layout_default(&entries);
    assert_eq!(
        pieces,
        vec![
            piece(Tone::Title, ">>> Lint for /r/one.py:"),
            piece(Tone::Plain, "\n"),
            piece(Tone::Plain, "  "),
            piece(Tone::Warning, "Warning"),
            piece(Tone::Plain, " (A) W1 at line 1\n    first\n"),
            piece(Tone::Plain, "  "),
            piece(Tone::Advice, "Advice"),
            piece(Tone::Plain, " (C)\n    third\n"),
            piece(Tone::Plain, "\n"),
            piece(Tone::Title, ">>> General linter failure:"),
            piece(Tone::Plain, "\n"),
            piece(Tone::Plain, "  "),
            piece(Tone::Error, "Error"),
            piece(Tone::Plain, " (B) linter failed with exit code 2\n    boom\n"),
            piece(Tone::Plain, "\n"),
        ]
    );
    assert_eq!(layout_default(&Vec::new()), Vec::<Piece>::new());
    let plain: String = pieces.iter().map(|p| p.text.as_str()).collect();
    assert_eq!(paint(&pieces, false), plain);
    assert_eq!(render_default(&entries, false), plain);
    assert_eq!(render_default(&entries, true), paint(&pieces, true));
}

#[test]
fn paint_styles_every_piece_but_the_plain_ones() {
    let pieces = vec![
        piece(Tone::Plain, "a"),
        piece(Tone::Title, "b"),
        piece(Tone::Advice, "c"),
        piece(Tone::Warning, "d"),
        piece(Tone::Error, "e"),
    ];
    assert_eq!(paint(&pieces, false), "abcde");
    assert_eq!(
        paint(&pieces, true),
        "a\x1b[1mb\x1b[0m\x1b[36m\x1b[1mc\x1b[0m\x1b[33m\x1b[1md\x1b[0m\x1b[31m\x1b[1me\x1b[0m"
    );
    assert_eq!(paint(&Vec::new(), true), "");
}

#[test]
fn forced_colour_is_always_on() {
    assert!(color_for(true, false));
    assert!(color_for(true, true));
    assert!(color_for(false, true));
    assert!(!color_for(false, false));
    assert!(settle_colors(true));
    assert!(console::colors_enabled());
    assert!(console::colors_enabled_stderr());
}

#[test]
fn side_file_gets_json_whatever_the_terminal_format() {
    let entries = vec![ReportEntry::Finding(issue("A", Severity::Error, "/r/x", "m"))];
    let out = render_run(&entries, RenderFormat::Oneline, false, Some("/tmp/out.json".to_string()));
    assert_eq!(out.terminal, render_oneline(&entries));
    let side = out.side_file.unwrap();
    assert_eq!(side.path, "/tmp/out.json");
    assert_eq!(side.content, render_json(&entries));
    let none = render_run(&entries, RenderFormat::Default, false, None);
    assert_eq!(none.terminal, render_default(&entries, false));
    assert_eq!(none.side_file, None);
}

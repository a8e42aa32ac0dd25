use lintrunner::fingerprint::fingerprint;
use lintrunner::invocation::{
    applies_patches, command_or_default, conclude, is_format_only, log_level, name_filter,
    path_selector, plan_invocation, report_entry, revision_selector, spinners_enabled, Command,
    Invocation, LogLevel, Options,
};
use lintrunner::issue::{LintIssue, Severity};
use lintrunner::ledger::{
    check_staleness, ConfigFingerprint, ExitInfo, Ledger, LedgerEntry, LedgerError, RunInfo,
    StalenessWarning,
};
use lintrunner::patch::{plan_patches, PatchConflictWarning, PatchPlan, PatchWrite};
use lintrunner::paths::{PathSelector, RevisionSelector};
use lintrunner::registry::LinterSpec;
use lintrunner::render::{render_json, render_oneline, RenderFormat};
use lintrunner::report::ReportEntry;

fn strings(list: &[&str]) -> Vec<String> {
    list.iter().map(|s| s.to_string()).collect()
}

fn suggestion(linter: &str, path: &str, replacement: Option<&str>) -> ReportEntry {
    ReportEntry::Finding(LintIssue {
        linter: linter.to_string(),
        severity: Severity::Warning,
        path: path.to_string(),
        line: None,
        column: None,
        message: "reformat".to_string(),
        code: None,
        replacement: replacement.map(|r| r.to_string()),
    })
}

fn run(args: &[&str], timestamp: &str) -> RunInfo {
    RunInfo::new(strings(args), timestamp.to_string())
}

#[test]
fn first_suggestion_wins_and_the_conflict_is_reported() {
    let entries = vec![
        suggestion("alpha", "/r/F", Some("R1")),
        suggestion("beta", "/r/F", Some("R2")),
    ];
    let plan = plan_patches(&entries, true);
    assert_eq!(
        plan.writes,
        vec![PatchWrite {
            path: "/r/F".to_string(),
            content: "R1".to_string(),
            linter: "alpha".to_string()
        }]
    );
    assert_eq!(
        plan.conflicts,
        vec![PatchConflictWarning {
            path: "/r/F".to_string(),
            applied_linter: "alpha".to_string(),
            rejected_linter: "beta".to_string()
        }]
    );
}

#[test]
fn patches_are_planned_only_when_asked_for() {
    let entries = vec![
        suggestion("alpha", "/r/F", Some("R1")),
        suggestion("beta", "/r/F", Some("R2")),
    ];
    assert_eq!(plan_patches(&entries, false), PatchPlan { writes: vec![], conflicts: vec![] });
    assert_eq!(plan_patches(&Vec::new(), true), PatchPlan { writes: vec![], conflicts: vec![] });
}

#[test]
fn files_without_suggestion_are_untouched_and_equal_suggestions_agree() {
    let entries = vec![
        suggestion("alpha", "/r/plain", None),
        suggestion("alpha", "/r/G", Some("same")),
        ReportEntry::Failure { linter: "gamma".to_string(), exit_code: Some(1), stderr: String::new() },
        suggestion("beta", "/r/F", Some("R1")),
        suggestion("beta", "/r/G", Some("same")),
        suggestion("gamma", "/r/F", Some("R2")),
        suggestion("delta", "/r/F", Some("R1")),
        suggestion("delta", "/r/F", Some("R3")),
    ];
    let plan = plan_patches(&entries, true);
    assert_eq!(
        plan.writes,
        vec![
            PatchWrite { path: "/r/G".to_string(), content: "same".to_string(), linter: "alpha".to_string() },
            PatchWrite { path: "/r/F".to_string(), content: "R1".to_string(), linter: "beta".to_string() },
        ]
    );
    assert_eq!(
        plan.conflicts,
        vec![
            PatchConflictWarning {
                path: "/r/F".to_string(),
                applied_linter: "beta".to_string(),
                rejected_linter: "gamma".to_string()
            },
            PatchConflictWarning {
                path: "/r/F".to_string(),
                applied_linter: "beta".to_string(),
                rejected_linter: "delta".to_string()
            },
        ]
    );
}

#[test]
fn ledger_round_trip() {
    let mut ledger = Ledger::new(10);
    ledger.begin(run(&["lint", "--all-files"], "2024-01-02T03:04:05.678Z"));
    assert_eq!(
        ledger.get(0),
        Ok(&LedgerEntry { run: run(&["lint", "--all-files"], "2024-01-02T03:04:05.678Z"), exit: None })
    );
    assert_eq!(ledger.finalize(ExitInfo { code: 1, err: Some("boom".to_string()) }), Ok(()));
    let entry = ledger.get(0).unwrap();
    assert_eq!(entry.run.args, strings(&["lint", "--all-files"]));
    assert_eq!(entry.run.timestamp, "2024-01-02T03:04:05.678Z");
    assert_eq!(entry.exit, Some(ExitInfo { code: 1, err: Some("boom".to_string()) }));
    assert_eq!(ledger.len(), 1);
}

#[test]
fn ledger_is_read_by_recency_and_bounded() {
    let mut ledger = Ledger::new(2);
    assert_eq!(ledger.retention(), 2);
    assert_eq!(ledger.get(0), Err(LedgerError::NoSuchInvocation));
    ledger.begin(run(&["one"], "t1"));
    assert_eq!(ledger.finalize(ExitInfo { code: 0, err: None }), Ok(()));
    ledger.begin(run(&["two"], "t2"));
    assert_eq!(ledger.get(0).unwrap().run.args, strings(&["two"]));
    assert_eq!(ledger.get(1).unwrap().run.args, strings(&["one"]));
    assert_eq!(ledger.get(2), Err(LedgerError::NoSuchInvocation));
    ledger.begin(run(&["three"], "t3"));
    assert_eq!(ledger.len(), 2);
    assert_eq!(ledger.get(0).unwrap().run.args, strings(&["three"]));
    assert_eq!(ledger.get(1).unwrap().run.args, strings(&["two"]));
    assert_eq!(ledger.get(1).unwrap().exit, None);
    assert_eq!(ledger.get(2), Err(LedgerError::NoSuchInvocation));
    assert_eq!(ledger.get(usize::MAX), Err(LedgerError::NoSuchInvocation));
    let oldest_first: Vec<String> = ledger.entries().iter().map(|e| e.run.timestamp.clone()).collect();
    assert_eq!(oldest_first, strings(&["t2", "t3"]));
}

#[test]
fn ledger_entries_are_completed_once() {
    let mut ledger = Ledger::new(0);
    assert_eq!(ledger.retention(), 1);
    assert_eq!(ledger.finalize(ExitInfo { code: 0, err: None }), Err(LedgerError::NoOpenInvocation));
    ledger.begin(run(&["lint"], "t"));
    assert_eq!(ledger.finalize(ExitInfo { code: 0, err: None }), Ok(()));
    assert_eq!(
        ledger.finalize(ExitInfo { code: 1, err: Some("late".to_string()) }),
        Err(LedgerError::NoOpenInvocation)
    );
    assert_eq!(ledger.get(0).unwrap().exit, Some(ExitInfo { code: 0, err: None }));
    ledger.begin(run(&["format"], "u"));
    assert_eq!(ledger.len(), 1);
    assert_eq!(ledger.get(0).unwrap().run.args, strings(&["format"]));
}

#[test]
fn ledger_is_restored_from_its_entries() {
    let history = vec![
        LedgerEntry { run: run(&["a"], "1"), exit: Some(ExitInfo { code: 0, err: None }) },
        LedgerEntry { run: run(&["b"], "2"), exit: None },
        LedgerEntry { run: run(&["c"], "3"), exit: Some(ExitInfo { code: 1, err: Some("e".to_string()) }) },
    ];
    let all = Ledger::restore(5, history.clone());
    assert_eq!(*all.entries(), history);
    let mut two = Ledger::restore(2, history.clone());
    assert_eq!(two.len(), 2);
    assert_eq!(two.get(0).unwrap(), &history[2]);
    assert_eq!(two.get(1).unwrap(), &history[1]);
    assert_eq!(two.finalize(ExitInfo { code: 0, err: None }), Err(LedgerError::NoOpenInvocation));
    assert_eq!(report_entry(&two, None).unwrap(), &history[2]);
    assert_eq!(report_entry(&two, Some(1)).unwrap(), &history[1]);
    assert_eq!(report_entry(&two, Some(2)), Err(LedgerError::NoSuchInvocation));
}

#[test]
fn run_info_keeps_arguments_and_moment() {
    let info = RunInfo::new(strings(&["lint", "-v"]), "2024-05-06T07:08:09.010+02:00".to_string());
    assert_eq!(info.args, strings(&["lint", "-v"]));
    assert_eq!(info.timestamp, "2024-05-06T07:08:09.010+02:00");
    let empty = RunInfo::new(Vec::new(), String::new());
    assert_eq!(empty.args, Vec::<String>::new());
    assert_eq!(empty.timestamp, "");
}

#[test]
fn exit_info_follows_the_result() {
    assert_eq!(ExitInfo::from_result(Ok(0)), ExitInfo { code: 0, err: None });
    assert_eq!(ExitInfo::from_result(Ok(1)), ExitInfo { code: 1, err: None });
    assert_eq!(
        ExitInfo::from_result(Err("no config".to_string())),
        ExitInfo { code: 1, err: Some("no config".to_string()) }
    );
}

#[test]
fn staleness_is_a_changed_fingerprint() {
    let h1 = ConfigFingerprint { digest: 1 };
    let h2 = ConfigFingerprint { digest: 2 };
    assert_eq!(check_staleness(Some(h1), h2), Some(StalenessWarning { stored: h1, current: h2 }));
    assert_eq!(check_staleness(Some(h1), h1), None);
    assert_eq!(check_staleness(None, h1), None);
}

#[test]
fn fingerprint_is_the_hash_of_the_configuration() {
    assert_eq!(fingerprint(&Vec::new()).digest, 0xcbf29ce484222325);
    let a = LinterSpec {
        name: "a".to_string(),
        command: String::new(),
        init_command: String::new(),
        include_globs: vec![],
        exclude_globs: vec![],
        is_formatter: false,
    };
    assert_eq!(fingerprint(&vec![a.clone()]).digest, 12476150758958960302);
    let two = vec![
        LinterSpec {
            name: "FLAKE8".to_string(),
            command: "flake8 --".to_string(),
            init_command: "pip install flake8".to_string(),
            include_globs: strings(&["*.py", "src/*"]),
            exclude_globs: strings(&["vendor/*"]),
            is_formatter: false,
        },
        LinterSpec {
            name: "BLACK".to_string(),
            command: "black é".to_string(),
            init_command: String::new(),
            include_globs: vec![],
            exclude_globs: vec![],
            is_formatter: true,
        },
    ];
    assert_eq!(fingerprint(&two).digest, 3719741550695597951);
    assert_eq!(fingerprint(&two), fingerprint(&two.clone()));
    let mut changed = two.clone();
    changed[1].init_command = "pip install black".to_string();
    assert_ne!(fingerprint(&changed), fingerprint(&two));
    let mut moved = two.clone();
    moved[0].include_globs = strings(&["*.py"]);
    moved[0].exclude_globs = strings(&["src/*", "vendor/*"]);
    assert_ne!(fingerprint(&moved), fingerprint(&two));
    assert_eq!(
        check_staleness(Some(fingerprint(&two)), fingerprint(&changed)),
        Some(StalenessWarning { stored: fingerprint(&two), current: fingerprint(&changed) })
    );
}

#[test]
fn log_level_follows_verbosity_and_format() {
    assert_eq!(log_level(0, RenderFormat::Default), LogLevel::Info);
    assert_eq!(log_level(0, RenderFormat::Json), LogLevel::Error);
    assert_eq!(log_level(0, RenderFormat::Oneline), LogLevel::Error);
    assert_eq!(log_level(1, RenderFormat::Default), LogLevel::Debug);
    assert_eq!(log_level(1, RenderFormat::Json), LogLevel::Debug);
    assert_eq!(log_level(2, RenderFormat::Default), LogLevel::Trace);
    assert_eq!(log_level(255, RenderFormat::Oneline), LogLevel::Trace);
    assert!(spinners_enabled(0, RenderFormat::Default));
    assert!(!spinners_enabled(1, RenderFormat::Default));
    assert!(!spinners_enabled(0, RenderFormat::Json));
}

#[test]
fn command_line_options_become_selectors() {
    assert_eq!(command_or_default(None), Command::Lint);
    assert_eq!(command_or_default(Some(Command::Format)), Command::Format);
    assert_eq!(
        revision_selector(Some("abc".to_string()), Some("main".to_string()), "dev".to_string()),
        RevisionSelector::AgainstRevision("abc".to_string())
    );
    assert_eq!(
        revision_selector(None, Some("main".to_string()), "dev".to_string()),
        RevisionSelector::AgainstMergeBaseWith("main".to_string())
    );
    assert_eq!(
        revision_selector(None, None, "dev".to_string()),
        RevisionSelector::AgainstMergeBaseWith("dev".to_string())
    );
    assert_eq!(revision_selector(None, None, String::new()), RevisionSelector::AtHead);
    assert_eq!(
        path_selector(Some("f".to_string()), Some("c".to_string()), strings(&["p"]), true),
        PathSelector::FromFile("f".to_string())
    );
    assert_eq!(
        path_selector(None, Some("c".to_string()), strings(&["p"]), true),
        PathSelector::FromShellCommand("c".to_string())
    );
    assert_eq!(
        path_selector(None, None, strings(&["p", "q"]), true),
        PathSelector::ExplicitList(strings(&["p", "q"]))
    );
    assert_eq!(path_selector(None, None, vec![], true), PathSelector::AllFiles);
    assert_eq!(path_selector(None, None, vec![], false), PathSelector::AutomaticDefault);
    assert_eq!(name_filter(&Some("A,B".to_string())), Some(strings(&["A", "B"])));
    assert_eq!(name_filter(&None), None);
}

#[test]
fn formatting_always_applies_patches() {
    assert!(applies_patches(Command::Format, false));
    assert!(applies_patches(Command::Lint, true));
    assert!(!applies_patches(Command::Lint, false));
    assert!(!applies_patches(Command::Init { dry_run: false }, true));
    assert!(!applies_patches(Command::Rage { invocation: None }, true));
    assert!(is_format_only(Command::Format));
    assert!(!is_format_only(Command::Lint));
}

#[test]
fn a_run_is_concluded_from_its_stream() {
    let entries = vec![
        suggestion("alpha", "/r/F", Some("R1")),
        suggestion("beta", "/r/F", Some("R2")),
    ];
    let out = conclude(&entries, RenderFormat::Oneline, false, Some("side.json".to_string()), true);
    assert_eq!(out.exit_code, 0);
    assert_eq!(out.rendering.terminal, render_oneline(&entries));
    assert_eq!(out.rendering.side_file.unwrap().content, render_json(&entries));
    assert_eq!(out.patches, plan_patches(&entries, true));
    let failed = vec![ReportEntry::Failure { linter: "x".to_string(), exit_code: None, stderr: String::new() }];
    let quiet = conclude(&failed, RenderFormat::Json, false, None, false);
    assert_eq!(quiet.exit_code, 1);
    assert_eq!(quiet.rendering.side_file, None);
    assert_eq!(quiet.patches, PatchPlan { writes: vec![], conflicts: vec![] });
}

fn options() -> Options {
    Options {
        verbose: 0,
        apply_patches: false,
        paths_cmd: None,
        paths_from: None,
        revision: None,
        merge_base_with: None,
        skip: None,
        take: None,
        output: RenderFormat::Default,
        command: None,
        paths: vec![],
        tee_json: None,
        all_files: false,
    }
}

#[test]
fn an_invocation_without_options_lints_what_changed() {
    assert_eq!(
        plan_invocation(options(), String::new()),
        Invocation {
            command: Command::Lint,
            log_level: LogLevel::Info,
            spinners: true,
            format: RenderFormat::Default,
            format_only: false,
            apply_patches: false,
            skip: None,
            take: None,
            revision: RevisionSelector::AtHead,
            paths: PathSelector::AutomaticDefault,
            tee_json: None,
        }
    );
}

#[test]
fn an_invocation_is_planned_from_its_options() {
    let given = Options {
        verbose: 2,
        apply_patches: false,
        skip: Some("A,B".to_string()),
        take: Some("C".to_string()),
        output: RenderFormat::Json,
        command: Some(Command::Format),
        paths: strings(&["x.py"]),
        tee_json: Some("out.json".to_string()),
        all_files: true,
        ..options()
    };
    assert_eq!(
        plan_invocation(given, "main".to_string()),
        Invocation {
            command: Command::Format,
            log_level: LogLevel::Trace,
            spinners: false,
            format: RenderFormat::Json,
            format_only: true,
            apply_patches: true,
            skip: Some(strings(&["A", "B"])),
            take: Some(strings(&["C"])),
            revision: RevisionSelector::AgainstMergeBaseWith("main".to_string()),
            paths: PathSelector::ExplicitList(strings(&["x.py"])),
            tee_json: Some("out.json".to_string()),
        }
    );
}

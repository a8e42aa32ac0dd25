use lintrunner::glob::{matches_any_glob, matches_glob};
use lintrunner::paths::{
    has_prefix, join_components, list_paths, normalize, path_source,
    resolve_components, resolve_fetched, resolve_paths, starts_at_root, Fetched, PathSelector,
    PathSource, PathSourceError, ResolveError, RevisionSelector,
};
use lintrunner::registry::{
    candidates, linter_inputs, parse_names, relative_path, schedule, select_linters, selects,
    LinterSpec, ScheduledLinter,
};
use lintrunner::text::{
    chars_of, contains_text, push_decimal, push_signed_decimal, same_text, split_bytes,
    split_text,
};

fn strings(list: &[&str]) -> Vec<String> {
    list.iter().map(|s| s.to_string()).collect()
}

fn linter(name: &str, takes: &[&str], leaves: &[&str], is_formatter: bool) -> LinterSpec {
    LinterSpec {
        name: name.to_string(),
        command: format!("run-{}", name),
        init_command: format!("init-{}", name),
        include_globs: strings(takes),
        exclude_globs: strings(leaves),
        is_formatter,
    }
}

#[test]
fn text_is_split_at_every_separator() {
    assert_eq!(split_text("a,b,c", ','), strings(&["a", "b", "c"]));
    assert_eq!(split_text("", ','), strings(&[""]));
    assert_eq!(split_text(",a,,b,", ','), strings(&["", "a", "", "b", ""]));
    assert_eq!(split_text("no separator", ','), strings(&["no separator"]));
    assert_eq!(split_text("é,ü", ','), strings(&["é", "ü"]));
    assert_eq!(split_bytes(&vec![1, 0, 2, 0], 0), vec![vec![1], vec![2], vec![]]);
    assert_eq!(split_bytes(&vec![], 0), vec![Vec::<u8>::new()]);
}

#[test]
fn strings_are_sequences_of_characters() {
    assert_eq!(chars_of("héllo"), vec!['h', 'é', 'l', 'l', 'o']);
    assert_eq!(chars_of(""), Vec::<char>::new());
    assert!(same_text(&"a".to_string(), &"a".to_string()));
    assert!(!same_text(&"a".to_string(), &"b".to_string()));
}

#[test]
fn numbers_are_written_in_decimal() {
    let mut out = String::from("n=");
    push_decimal(&mut out, 0);
    assert_eq!(out, "n=0");
    push_decimal(&mut out, 1234567890);
    assert_eq!(out, "n=01234567890");
    let mut max = String::new();
    push_decimal(&mut max, u64::MAX);
    assert_eq!(max, "18446744073709551615");
    let mut signed = String::new();
    push_signed_decimal(&mut signed, -17);
    push_signed_decimal(&mut signed, 0);
    push_signed_decimal(&mut signed, i32::MIN);
    assert_eq!(signed, "-170-2147483648");
}

#[test]
fn glob_star_question_mark_and_literals() {
    assert!(matches_glob("*.py", "a.py"));
    assert!(matches_glob("*.py", ".py"));
    assert!(matches_glob("*.py", "src/deep/a.py"));
    assert!(!matches_glob("*.py", "a.pyc"));
    assert!(matches_glob("src/*", "src/a/b.rs"));
    assert!(!matches_glob("src/*", "lib/a.rs"));
    assert!(matches_glob("a?c", "abc"));
    assert!(!matches_glob("a?c", "ac"));
    assert!(!matches_glob("a?c", "abbc"));
    assert!(matches_glob("", ""));
    assert!(!matches_glob("", "a"));
    assert!(matches_glob("*", ""));
    assert!(matches_glob("**", "anything/at/all"));
    assert!(matches_glob("a*b*c", "aXXbYYc"));
    assert!(matches_glob("a*b*c", "abbc"));
    assert!(!matches_glob("a*b*c", "aXXbYY"));
    assert!(matches_glob("exact", "exact"));
    assert!(!matches_glob("exact", "Exact"));
    assert!(matches_glob("*é?", "caféx"));
    assert!(matches_any_glob(&strings(&["*.rs", "*.py"]), "a.py"));
    assert!(!matches_any_glob(&strings(&["*.rs", "*.py"]), "a.js"));
    assert!(!matches_any_glob(&Vec::new(), "a.js"));
}

#[test]
fn components_are_normalised() {
    assert_eq!(normalize(&strings(&["", "a", ".", "b", "..", "c", ""])), strings(&["a", "c"]));
    assert_eq!(normalize(&strings(&["..", "..", "a"])), strings(&["a"]));
    assert_eq!(normalize(&strings(&["", ""])), Vec::<String>::new());
    assert_eq!(join_components(&strings(&["a", "b"])), "/a/b");
    assert_eq!(join_components(&Vec::new()), "/");
    assert!(starts_at_root("/a"));
    assert!(!starts_at_root("a/b"));
    assert!(!starts_at_root(""));
    assert!(has_prefix(&strings(&["a"]), &strings(&["a", "b"])));
    assert!(has_prefix(&Vec::new(), &strings(&["a"])));
    assert!(!has_prefix(&strings(&["a", "b"]), &strings(&["a"])));
    assert!(!has_prefix(&strings(&["a", "c"]), &strings(&["a", "b", "c"])));
    assert_eq!(resolve_components(&strings(&["", "r", "w"]), "../x/./y"), strings(&["r", "x", "y"]));
    assert_eq!(resolve_components(&strings(&["", "r", "w"]), "/q//z"), strings(&["q", "z"]));
    assert!(contains_text(&strings(&["a", "b"]), &"b".to_string()));
    assert!(!contains_text(&strings(&["a", "b"]), &"c".to_string()));
}

#[test]
fn resolved_paths_are_absolute_distinct_and_inside_the_root() {
    let raw = strings(&["a.py", "./a.py", "/repo/sub/../a.py", "sub/b.py", "/repo/c.py", "sub/b.py"]);
    let set = resolve_paths("/repo", "/repo/work/..", &raw).unwrap();
    assert_eq!(*set.paths(), strings(&["/repo/a.py", "/repo/sub/b.py", "/repo/c.py"]));
    assert_eq!(set.root(), "/repo");
    assert_eq!(set.len(), 3);
    for (i, path) in set.paths().iter().enumerate() {
        assert!(path.starts_with("/repo/"));
        assert!(!set.paths()[..i].contains(path));
    }
    let from_sub = resolve_paths("/repo/", "/repo/sub", &strings(&["x", "../y", "."])).unwrap();
    assert_eq!(*from_sub.paths(), strings(&["/repo/sub/x", "/repo/y", "/repo/sub"]));
    let empty = resolve_paths("/repo", "/repo", &Vec::new()).unwrap();
    assert_eq!(empty.len(), 0);
    let at_top = resolve_paths("/", "/", &strings(&["etc/x", "/"])).unwrap();
    assert_eq!(*at_top.paths(), strings(&["/etc/x", "/"]));
    assert_eq!(at_top.root(), "/");
}

#[test]
fn paths_outside_the_root_are_rejected() {
    let raw = strings(&["ok.py", "../outside.py", "/elsewhere/x"]);
    assert_eq!(
        resolve_paths("/repo", "/repo", &raw),
        Err(PathSourceError::OutsideRoot("../outside.py".to_string()))
    );
    assert_eq!(
        resolve_paths("/repo", "/repo", &strings(&["/repository/x"])),
        Err(PathSourceError::OutsideRoot("/repository/x".to_string()))
    );
    assert_eq!(
        resolve_paths("/repo", "/tmp", &strings(&["x"])),
        Err(PathSourceError::OutsideRoot("x".to_string()))
    );
    assert_eq!(resolve_paths("repo", "/repo", &Vec::new()), Err(PathSourceError::NotAbsolute));
    assert_eq!(resolve_paths("/repo", "work", &Vec::new()), Err(PathSourceError::NotAbsolute));
    assert_eq!(resolve_paths("", "", &strings(&["x"])), Err(PathSourceError::NotAbsolute));
}

#[test]
fn listed_paths_are_the_non_empty_lines() {
    assert_eq!(list_paths("a.py\nb c.py\n\n d \n"), strings(&["a.py", "b c.py", " d "]));
    assert_eq!(list_paths(""), Vec::<String>::new());
    assert_eq!(list_paths("one"), strings(&["one"]));
    assert_eq!(list_paths("a\r\nb"), strings(&["a\r", "b"]));
}

#[test]
fn every_selector_has_its_source() {
    let rev = || Some(RevisionSelector::AgainstRevision("abc".to_string()));
    assert_eq!(
        path_source(PathSelector::ExplicitList(strings(&["a"])), rev()),
        PathSource::Given(strings(&["a"]))
    );
    assert_eq!(
        path_source(PathSelector::FromFile("list.txt".to_string()), rev()),
        PathSource::ReadFile("list.txt".to_string())
    );
    assert_eq!(
        path_source(PathSelector::FromShellCommand("git ls-files".to_string()), None),
        PathSource::RunCommand("git ls-files".to_string())
    );
    assert_eq!(path_source(PathSelector::AllFiles, rev()), PathSource::AllTracked);
    assert_eq!(path_source(PathSelector::AutomaticDefault, None), PathSource::ChangedSinceHead);
    assert_eq!(
        path_source(PathSelector::AutomaticDefault, Some(RevisionSelector::AtHead)),
        PathSource::ChangedSinceHead
    );
    assert_eq!(
        path_source(PathSelector::AutomaticDefault, rev()),
        PathSource::ChangedSince("abc".to_string())
    );
    assert_eq!(
        path_source(
            PathSelector::AutomaticDefault,
            Some(RevisionSelector::AgainstMergeBaseWith("main".to_string()))
        ),
        PathSource::ChangedSinceMergeBase("main".to_string())
    );
}

#[test]
fn fetched_paths_are_resolved_or_refused() {
    let given = resolve_fetched("/repo", "/repo/src", &Fetched::Given(strings(&["a.rs", "a.rs"]))).unwrap();
    assert_eq!(*given.paths(), strings(&["/repo/src/a.rs"]));
    let file = resolve_fetched("/repo", "/repo", &Fetched::FileContent("x\n\ny\n".to_string())).unwrap();
    assert_eq!(*file.paths(), strings(&["/repo/x", "/repo/y"]));
    let command = Fetched::CommandEnded { code: 0, output: "src/m.rs\n".to_string() };
    let ran = resolve_fetched("/repo", "/repo", &command).unwrap();
    assert_eq!(*ran.paths(), strings(&["/repo/src/m.rs"]));
    let listing = resolve_fetched("/repo", "/repo/deep/down", &Fetched::Listing("a\nb/c\n".to_string())).unwrap();
    assert_eq!(*listing.paths(), strings(&["/repo/a", "/repo/b/c"]));
    assert_eq!(
        resolve_fetched("/repo", "/repo", &Fetched::FileUnreadable),
        Err(ResolveError::PathSourceError(PathSourceError::Unreadable))
    );
    let failed = Fetched::CommandEnded { code: 3, output: "a\n".to_string() };
    assert_eq!(
        resolve_fetched("/repo", "/repo", &failed),
        Err(ResolveError::PathSourceError(PathSourceError::CommandFailed(3)))
    );
    assert_eq!(
        resolve_fetched("/repo", "/repo", &Fetched::ListingFailed("unknown revision".to_string())),
        Err(ResolveError::RevisionResolutionError("unknown revision".to_string()))
    );
    assert_eq!(
        resolve_fetched("/repo", "/repo", &Fetched::Given(strings(&["/etc/passwd"]))),
        Err(ResolveError::PathSourceError(PathSourceError::OutsideRoot("/etc/passwd".to_string())))
    );
}

#[test]
fn names_are_parsed_and_linters_selected() {
    assert_eq!(parse_names("CLANGFORMAT,NOQA"), strings(&["CLANGFORMAT", "NOQA"]));
    assert_eq!(parse_names("ONE"), strings(&["ONE"]));
    let all = vec![
        linter("A", &[], &[], false),
        linter("B", &[], &[], true),
        linter("C", &[], &[], false),
        linter("D", &[], &[], true),
    ];
    let names = |list: &Vec<LinterSpec>| list.iter().map(|l| l.name.clone()).collect::<Vec<_>>();
    assert_eq!(names(&select_linters(&all, &None, &None)), strings(&["A", "B", "C", "D"]));
    assert_eq!(
        names(&select_linters(&all, &Some(strings(&["B", "UNKNOWN"])), &None)),
        strings(&["A", "C", "D"])
    );
    assert_eq!(
        names(&select_linters(&all, &None, &Some(strings(&["D", "A", "NOPE"])))),
        strings(&["A", "D"])
    );
    assert_eq!(
        names(&select_linters(&all, &Some(strings(&["A"])), &Some(strings(&["A", "C"])))),
        strings(&["C"])
    );
    assert_eq!(names(&select_linters(&all, &None, &Some(Vec::new()))), Vec::<String>::new());
    assert_eq!(select_linters(&all, &None, &None), all);
    assert!(selects(&"A".to_string(), &None, &None));
    assert!(!selects(&"A".to_string(), &Some(strings(&["A"])), &Some(strings(&["A"]))));
    assert_eq!(names(&candidates(&all, true)), strings(&["B", "D"]));
    assert_eq!(candidates(&all, false), all);
}

#[test]
fn linter_without_include_globs_takes_all_but_the_excluded() {
    let targets = resolve_paths(
        "/repo",
        "/repo",
        &strings(&["a.py", "vendor/b.py", "src/c.rs", "src/vendor.py"]),
    )
    .unwrap();
    let open = linter("OPEN", &[], &["vendor/*"], false);
    assert_eq!(
        linter_inputs(&open, &targets),
        strings(&["/repo/a.py", "/repo/src/c.rs", "/repo/src/vendor.py"])
    );
    let everything = linter("ALL", &[], &[], false);
    assert_eq!(linter_inputs(&everything, &targets), *targets.paths());
    let python = linter("PY", &["*.py"], &["src/*"], false);
    assert_eq!(linter_inputs(&python, &targets), strings(&["/repo/a.py", "/repo/vendor/b.py"]));
    let nothing = linter("NONE", &["*.java"], &[], false);
    assert_eq!(linter_inputs(&nothing, &targets), Vec::<String>::new());
}

#[test]
fn relative_paths_are_what_follows_the_root() {
    let rel = |root: &str, path: &str| relative_path(&root.to_string(), &path.to_string());
    assert_eq!(rel("/repo", "/repo/src/a.py"), "src/a.py");
    assert_eq!(rel("/repo", "/repo"), "");
    assert_eq!(rel("/", "/etc/x"), "etc/x");
    assert_eq!(rel("/", "/"), "");
    assert_eq!(rel("/long/root", "/x"), "");
}

#[test]
fn linters_without_input_are_not_scheduled() {
    let targets = resolve_paths("/repo", "/repo", &strings(&["a.py", "b.rs"])).unwrap();
    let all = vec![
        linter("PY", &["*.py"], &[], false),
        linter("JAVA", &["*.java"], &[], false),
        linter("ANY", &[], &["*.py"], true),
    ];
    let planned = schedule(&all, &targets);
    assert_eq!(
        planned,
        vec![
            ScheduledLinter { linter: all[0].clone(), paths: strings(&["/repo/a.py"]) },
            ScheduledLinter { linter: all[2].clone(), paths: strings(&["/repo/b.rs"]) },
        ]
    );
    let none = resolve_paths("/repo", "/repo", &Vec::new()).unwrap();
    assert_eq!(schedule(&all, &none), Vec::<ScheduledLinter>::new());
}

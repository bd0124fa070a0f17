use onyx::paths::{join_path, resolve_path, split_file_name};
use onyx::preflight::{
    build_preflight_summary, check_contest_problems, check_contest_times, contest_problems_api_url, contests_api_url,
    count_c_or_cpp_files, problem_dir, validate_contest_window, validate_contest_window_now,
    validate_solutions_layout, ContestProblemSummary, ContestSummary, ContestWindowError,
    DirEntryInfo, LayoutError, ProblemDirState, ProblemsError, TimeField,
};

const JAN_1_2024: i64 = 1704067200;

fn contest(id: &str, start: Option<&str>, end: Option<&str>) -> ContestSummary {
    ContestSummary {
        id: id.to_string(),
        start_time: start.map(|s| s.to_string()),
        end_time: end.map(|s| s.to_string()),
    }
}

fn problem(id: u32, short: &str) -> ContestProblemSummary {
    ContestProblemSummary { probid: id, short_name: short.to_string() }
}

fn file(name: &str) -> DirEntryInfo {
    DirEntryInfo { is_file: true, file_name: name.to_string() }
}

#[test]
fn api_urls_drop_trailing_slashes_of_the_base() {
    assert_eq!(contests_api_url("http://judge/domjudge//"), "http://judge/domjudge/api/v4/contests");
    assert_eq!(contests_api_url("http://judge"), "http://judge/api/v4/contests");
    assert_eq!(
        contest_problems_api_url("http://judge/", "demo"),
        "http://judge/api/v4/contests/demo/problems"
    );
}

#[test]
fn contest_window_accepts_a_running_contest() {
    let contests = vec![
        contest("other", None, None),
        contest("demo", Some("2024-01-01T00:00:00Z"), Some("2024-01-01T05:00:00+00:00")),
    ];
    assert_eq!(validate_contest_window(&contests, "demo", (JAN_1_2024, 0)), Ok(()));
    assert_eq!(validate_contest_window(&contests, "demo", (JAN_1_2024 + 3600, 5)), Ok(()));
    let open_ended = vec![contest("demo", Some("2024-01-01T00:00:00Z"), None)];
    assert_eq!(validate_contest_window(&open_ended, "demo", (JAN_1_2024 + 10_000_000, 0)), Ok(()));
}

#[test]
fn contest_window_reads_offsets_as_the_same_instant() {
    let contests = vec![contest("demo", Some("2024-01-01T01:00:00+01:00"), None)];
    assert_eq!(validate_contest_window(&contests, "demo", (JAN_1_2024, 0)), Ok(()));
    assert_eq!(
        validate_contest_window(&contests, "demo", (JAN_1_2024 - 1, 999_999_999)),
        Err(ContestWindowError::NotStarted {
            contest_id: "demo".to_string(),
            start_time: "2024-01-01T01:00:00+01:00".to_string(),
        })
    );
}

#[test]
fn contest_window_errors() {
    let ended = vec![contest("demo", Some("2024-01-01T00:00:00Z"), Some("2024-01-01T05:00:00Z"))];
    assert_eq!(
        validate_contest_window(&ended, "demo", (JAN_1_2024 + 5 * 3600, 0)),
        Err(ContestWindowError::Ended { contest_id: "demo".to_string(), end_time: "2024-01-01T05:00:00Z".to_string() })
    );
    assert_eq!(validate_contest_window(&ended, "nope", (JAN_1_2024, 0)), Err(ContestWindowError::NotFound));
    let no_start = vec![contest("demo", None, None)];
    assert_eq!(
        validate_contest_window(&no_start, "demo", (JAN_1_2024, 0)),
        Err(ContestWindowError::NoStartTime { contest_id: "demo".to_string() })
    );
    let bad_start = vec![contest("demo", Some("yesterday"), None)];
    assert_eq!(
        validate_contest_window(&bad_start, "demo", (JAN_1_2024, 0)),
        Err(ContestWindowError::InvalidTime {
            field: TimeField::StartTime,
            value: "yesterday".to_string(),
            contest_id: "demo".to_string(),
        })
    );
    let bad_end = vec![contest("demo", Some("2024-01-01T00:00:00Z"), Some("2024-13-01T00:00:00Z"))];
    assert_eq!(
        validate_contest_window(&bad_end, "demo", (JAN_1_2024, 0)),
        Err(ContestWindowError::InvalidTime {
            field: TimeField::EndTime,
            value: "2024-13-01T00:00:00Z".to_string(),
            contest_id: "demo".to_string(),
        })
    );
    let first_wins = vec![contest("demo", None, None), contest("demo", Some("2024-01-01T00:00:00Z"), None)];
    assert_eq!(
        validate_contest_window(&first_wins, "demo", (JAN_1_2024, 0)),
        Err(ContestWindowError::NoStartTime { contest_id: "demo".to_string() })
    );
}

#[test]
fn contest_window_now_uses_the_clock() {
    let started = vec![contest("demo", Some("2000-01-01T00:00:00Z"), None)];
    assert_eq!(validate_contest_window_now(&started, "demo"), Ok(()));
    let future = vec![contest("demo", Some("2999-01-01T00:00:00Z"), None)];
    assert!(matches!(validate_contest_window_now(&future, "demo"), Err(ContestWindowError::NotStarted { .. })));
}

#[test]
fn problems_are_checked_in_order() {
    assert_eq!(check_contest_problems(&vec![problem(1, "A"), problem(2, "B")]), Ok(()));
    assert_eq!(check_contest_problems(&vec![]), Err(ProblemsError::NoProblems));
    assert_eq!(check_contest_problems(&vec![problem(1, "A"), problem(0, "B")]), Err(ProblemsError::EmptyId));
    assert_eq!(check_contest_problems(&vec![problem(1, " "), problem(0, "B")]), Err(ProblemsError::EmptyShortName));
}

#[test]
fn paths_join_as_on_unix() {
    assert_eq!(join_path("/srv/sol", "A"), "/srv/sol/A");
    assert_eq!(join_path("/srv/sol/", "A"), "/srv/sol/A");
    assert_eq!(join_path("", "A"), "A");
    assert_eq!(join_path("/srv/sol", "/abs"), "/abs");
    assert_eq!(join_path("dir", ""), "dir/");
    assert_eq!(resolve_path(Some("/etc/onyx"), "team.csv"), "/etc/onyx/team.csv");
    assert_eq!(resolve_path(Some("/etc/onyx"), "/data/team.csv"), "/data/team.csv");
    assert_eq!(resolve_path(Some(""), "team.csv"), "team.csv");
    assert_eq!(resolve_path(None, "./solutions"), "./solutions");
    assert_eq!(problem_dir("/srv/sol", "  A "), "/srv/sol/A");
}

#[test]
fn file_names_split_like_path_stem_and_extension() {
    assert_eq!(split_file_name("AC.cpp"), ("AC", Some("cpp")));
    assert_eq!(split_file_name("a.tar.gz"), ("a.tar", Some("gz")));
    assert_eq!(split_file_name(".bashrc"), (".bashrc", None));
    assert_eq!(split_file_name("README"), ("README", None));
    assert_eq!(split_file_name("foo."), ("foo", Some("")));
    assert_eq!(split_file_name(".."), ("..", None));
    assert_eq!(split_file_name("..a"), (".", Some("a")));
}

#[test]
fn solution_files_are_classified() {
    let check = count_c_or_cpp_files(&vec![
        file("ac.CPP"),
        file("TLE.c"),
        file("wa.cpp"),
        file("notes.txt"),
        DirEntryInfo { is_file: false, file_name: "brute.c".to_string() },
        file("gen.Cpp"),
    ]);
    assert!(check.has_ac);
    assert!(check.has_tle);
    assert_eq!(check.unknown_named_sources, vec!["wa".to_string(), "gen".to_string()]);
    let empty = count_c_or_cpp_files(&vec![]);
    assert!(!empty.has_ac && !empty.has_tle && empty.unknown_named_sources.is_empty());
}

fn good_dir() -> ProblemDirState {
    ProblemDirState { exists: true, is_dir: true, entries: Some(vec![file("AC.cpp"), file("TLE.c")]) }
}

#[test]
fn layout_passes_with_ac_and_tle_everywhere() {
    let problems = vec![problem(1, "A"), problem(2, "B")];
    let r = validate_solutions_layout(Some("/cfg"), "solutions", &problems, true, true, &vec![good_dir(), good_dir()]);
    assert_eq!(r, Ok("/cfg/solutions".to_string()));
}

#[test]
fn layout_root_errors() {
    let problems = vec![problem(1, "A")];
    assert_eq!(
        validate_solutions_layout(None, "./solutions", &problems, false, false, &vec![good_dir()]),
        Err(LayoutError::RootMissing { root: "./solutions".to_string() })
    );
    assert_eq!(
        validate_solutions_layout(None, "/s", &problems, true, false, &vec![good_dir()]),
        Err(LayoutError::RootNotDir { root: "/s".to_string() })
    );
}

#[test]
fn layout_issues_are_collected_in_problem_order() {
    let problems = vec![problem(1, "A"), problem(2, " B "), problem(3, "C"), problem(4, "D")];
    let dirs = vec![
        ProblemDirState { exists: false, is_dir: false, entries: None },
        ProblemDirState { exists: true, is_dir: false, entries: None },
        ProblemDirState { exists: true, is_dir: true, entries: Some(vec![file("x.c"), file("y.cpp")]) },
        ProblemDirState { exists: true, is_dir: true, entries: Some(vec![file("AC.c")]) },
    ];
    let r = validate_solutions_layout(None, "/s", &problems, true, true, &dirs);
    assert_eq!(
        r,
        Err(LayoutError::Issues {
            issues: vec![
                "missing problem directory 'A' under /s".to_string(),
                "problem path '/s/B' is not a directory".to_string(),
                "problem 'C' has invalid source file names in /s/C: x, y (only AC/TLE are allowed)".to_string(),
                "problem 'C' is missing AC.c or AC.cpp in /s/C".to_string(),
                "problem 'C' is missing TLE.c or TLE.cpp in /s/C".to_string(),
                "problem 'D' is missing TLE.c or TLE.cpp in /s/D".to_string(),
            ],
        })
    );
}

#[test]
fn layout_stops_at_an_unreadable_directory() {
    let problems = vec![problem(1, "A"), problem(2, "B"), problem(3, "C")];
    let dirs = vec![
        ProblemDirState { exists: false, is_dir: false, entries: None },
        ProblemDirState { exists: true, is_dir: true, entries: None },
        ProblemDirState { exists: false, is_dir: false, entries: None },
    ];
    assert_eq!(
        validate_solutions_layout(None, "/s/", &problems, true, true, &dirs),
        Err(LayoutError::Unreadable { dir: "/s/B".to_string() })
    );
}

#[test]
fn summary_keeps_the_problem_list() {
    let s = build_preflight_summary("demo", &vec![problem(7, "A"), problem(9, "B")], "/s".to_string());
    assert_eq!(s.contest_id, "demo");
    assert_eq!(s.solutions_root, "/s");
    assert_eq!(s.problems.len(), 2);
    assert_eq!(s.problems[0].id, 7);
    assert_eq!(s.problems[1].short_name, "B");
    assert_eq!(s.problem_short_names, vec!["A".to_string(), "B".to_string()]);
}

#[test]
fn contest_times_decide_the_window() {
    let c = contest("demo", Some("start"), Some("end"));
    let start = (100i64, 0u32);
    let end = (200i64, 0u32);
    assert_eq!(check_contest_times(&c, Some(start), Some(end), (100, 0)), Ok(()));
    assert_eq!(check_contest_times(&c, Some(start), Some(end), (199, 999_999_999)), Ok(()));
    assert_eq!(
        check_contest_times(&c, Some(start), Some(end), (99, 999_999_999)),
        Err(ContestWindowError::NotStarted { contest_id: "demo".to_string(), start_time: "start".to_string() })
    );
    assert_eq!(
        check_contest_times(&c, Some(start), Some(end), (200, 0)),
        Err(ContestWindowError::Ended { contest_id: "demo".to_string(), end_time: "end".to_string() })
    );
    assert_eq!(
        check_contest_times(&c, None, Some(end), (150, 0)),
        Err(ContestWindowError::InvalidTime {
            field: TimeField::StartTime,
            value: "start".to_string(),
            contest_id: "demo".to_string()
        })
    );
    assert_eq!(
        check_contest_times(&c, Some(start), None, (150, 0)),
        Err(ContestWindowError::InvalidTime {
            field: TimeField::EndTime,
            value: "end".to_string(),
            contest_id: "demo".to_string()
        })
    );
    let open_ended = contest("demo", Some("start"), None);
    assert_eq!(check_contest_times(&open_ended, Some(start), None, (10_000, 0)), Ok(()));
    let no_start = contest("demo", None, Some("end"));
    assert_eq!(
        check_contest_times(&no_start, Some(start), Some(end), (150, 0)),
        Err(ContestWindowError::NoStartTime { contest_id: "demo".to_string() })
    );
}

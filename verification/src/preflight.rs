use vstd::prelude::*;
use vstd::string::*;

use crate::paths::{
    join_path, path_join, resolve_path, resolved_path, split_file_name, stem_and_extension,
    law_file_name_splits_at_last_dot,
};
use crate::text::{
    chars_of, eq_ignore_ascii_case, eq_ignore_ascii_case_str, is_blank, is_blank_str, join,
    join_strs, str_eq, trim, trim_str, views,
};

verus! {

/// A contest problem as the load test needs it: its numeric id and short name.
#[derive(Debug, Clone)]
pub struct ContestProblemInfo {
    pub id: u32,
    pub short_name: String,
}

/// What the checks before the load test found out.
#[derive(Debug, Clone)]
pub struct PreflightSummary {
    pub contest_id: String,
    pub problems: Vec<ContestProblemInfo>,
    pub problem_short_names: Vec<String>,
    /// The root directory of the solution sources, as a path.
    pub solutions_root: String,
}

/// A contest as the contests API lists it.
#[derive(Debug, Clone)]
pub struct ContestSummary {
    pub id: String,
    pub start_time: Option<String>,
    pub end_time: Option<String>,
}

/// A problem as the contest problems API lists it.
#[derive(Debug, Clone)]
pub struct ContestProblemSummary {
    pub probid: u32,
    pub short_name: String,
}

/// `s` without its trailing `c`s, as `str::trim_end_matches` with a character gives it.
pub open spec fn trim_end_char(s: Seq<char>, c: char) -> Seq<char>
    decreases s.len(),
{
    if s.len() > 0 && s.last() == c {
        trim_end_char(s.drop_last(), c)
    } else {
        s
    }
}

/// `base_url` without its trailing slashes.
pub fn trim_trailing_slashes(base_url: &str) -> (r: &str)
    ensures
        r@ == trim_end_char(base_url@, '/'),
{
    let v = chars_of(base_url);
    let n = v.len();
    let mut b = n;
    assert(base_url@.subrange(0, n as int) =~= base_url@);
    while b > 0 && v[b - 1] == '/'
        invariant
            b <= n,
            n == v@.len(),
            v@ == base_url@,
            trim_end_char(base_url@, '/') == trim_end_char(base_url@.subrange(0, b as int), '/'),
        decreases b,
    {
        assert(base_url@.subrange(0, b as int).drop_last() =~= base_url@.subrange(0, b - 1));
        b = b - 1;
    }
    base_url.substring_char(0, b)
}

/// The URL of the contests API under `base_url`.
pub fn contests_api_url(base_url: &str) -> (url: String)
    ensures
        url@ == trim_end_char(base_url@, '/') + "/api/v4/contests"@,
{
    let mut url = String::from_str(trim_trailing_slashes(base_url));
    url.append("/api/v4/contests");
    url
}

/// The URL of the problems API of the contest `contest_id` under `base_url`.
pub fn contest_problems_api_url(base_url: &str, contest_id: &str) -> (url: String)
    ensures
        url@ == trim_end_char(base_url@, '/') + "/api/v4/contests/"@ + contest_id@ + "/problems"@,
{
    let mut url = String::from_str(trim_trailing_slashes(base_url));
    url.append("/api/v4/contests/");
    url.append(contest_id);
    url.append("/problems");
    url
}

/// A point in time: seconds since the Unix epoch and the nanoseconds past that second.
pub type Instant = (i64, u32);

/// `a` comes before `b`.
pub open spec fn instant_before(a: Instant, b: Instant) -> bool {
    a.0 < b.0 || (a.0 == b.0 && a.1 < b.1)
}

pub fn is_before(a: Instant, b: Instant) -> (r: bool)
    ensures
        r == instant_before(a, b),
{
    a.0 < b.0 || (a.0 == b.0 && a.1 < b.1)
}

/// The instant that an RFC 3339 timestamp names, as chrono's `DateTime::parse_from_rfc3339`
/// reads it, taken to UTC: its Unix timestamp and the nanoseconds past that second;
/// `None` where the text is not such a timestamp.
pub uninterp spec fn rfc3339_instant(value: Seq<char>) -> Option<Instant>;

/// Reads an RFC 3339 timestamp with chrono's `DateTime::parse_from_rfc3339`, converts it
/// to UTC, and gives its `timestamp()` and `timestamp_subsec_nanos()`. Claimed: the result
/// is the one `rfc3339_instant` names for the text.
#[verifier::external_body]
pub(crate) fn parse_rfc3339_utc(value: &str) -> (r: Option<Instant>)
    ensures
        r == rfc3339_instant(value@),
{
    match chrono::DateTime::parse_from_rfc3339(value) {
        Ok(t) => {
            let u = t.with_timezone(&chrono::Utc);
            Some((u.timestamp(), u.timestamp_subsec_nanos()))
        },
        Err(_) => None,
    }
}

/// The current time, from chrono's `Utc::now()`, as its `timestamp()` and
/// `timestamp_subsec_nanos()`. Nothing is claimed of it: it rests on the clock.
#[verifier::external_body]
pub(crate) fn utc_now() -> (r: Instant) {
    let now = chrono::Utc::now();
    (now.timestamp(), now.timestamp_subsec_nanos())
}

/// Which of a contest's times is meant.
#[derive(Debug, Clone, Copy, PartialEq, Eq)]
pub enum TimeField {
    StartTime,
    EndTime,
}

/// Why the contest cannot be tested now.
#[derive(Debug, Clone, PartialEq, Eq)]
pub enum ContestWindowError {
    /// No listed contest has the configured id.
    NotFound,
    /// The contest has no start time.
    NoStartTime { contest_id: String },
    /// A time of the contest is not an RFC 3339 timestamp.
    InvalidTime { field: TimeField, value: String, contest_id: String },
    /// The contest has not started yet.
    NotStarted { contest_id: String, start_time: String },
    /// The contest is over.
    Ended { contest_id: String, end_time: String },
}

/// The position of the first contest with the id `id`.
pub open spec fn first_contest(contests: Seq<ContestSummary>, id: Seq<char>, from: int) -> Option<int>
    decreases contests.len() - from,
{
    if from < 0 || from >= contests.len() {
        None
    } else if contests[from].id@ == id {
        Some(from)
    } else {
        first_contest(contests, id, from + 1)
    }
}

/// Whether the contest `c` runs at `now`, its start and end times read as `start_at` and
/// `end_at` (`None` for a time that is not an RFC 3339 timestamp): it needs a start time,
/// at or before `now`, and an end time, if it has one, after `now`.
pub open spec fn times_window(
    c: ContestSummary,
    start_at: Option<Instant>,
    end_at: Option<Instant>,
    now: Instant,
) -> Result<(), ContestWindowError> {
    match c.start_time {
        None => Err(ContestWindowError::NoStartTime { contest_id: c.id }),
        Some(start) => match start_at {
            None => Err(ContestWindowError::InvalidTime { field: TimeField::StartTime, value: start, contest_id: c.id }),
            Some(s) => if instant_before(now, s) {
                Err(ContestWindowError::NotStarted { contest_id: c.id, start_time: start })
            } else {
                match c.end_time {
                    None => Ok(()),
                    Some(end) => match end_at {
                        None => Err(ContestWindowError::InvalidTime { field: TimeField::EndTime, value: end, contest_id: c.id }),
                        Some(e) => if !instant_before(now, e) {
                            Err(ContestWindowError::Ended { contest_id: c.id, end_time: end })
                        } else {
                            Ok(())
                        },
                    },
                }
            },
        },
    }
}

/// The instant that a contest time names, where it has one.
pub open spec fn time_instant(t: Option<String>) -> Option<Instant> {
    match t {
        Some(v) => rfc3339_instant(v@),
        None => None,
    }
}

/// Whether the contest `c` runs at `now`.
pub open spec fn contest_window(c: ContestSummary, now: Instant) -> Result<(), ContestWindowError> {
    times_window(c, time_instant(c.start_time), time_instant(c.end_time), now)
}

/// The check that the contest `contest` runs at `now`, given its start and end times as
/// read (`None` for one that is absent or not an RFC 3339 timestamp).
pub fn check_contest_times(
    contest: &ContestSummary,
    start_at: Option<Instant>,
    end_at: Option<Instant>,
    now: Instant,
) -> (r: Result<(), ContestWindowError>)
    ensures
        r == times_window(*contest, start_at, end_at, now),
{
    let start = match &contest.start_time {
        None => return Err(ContestWindowError::NoStartTime { contest_id: contest.id.clone() }),
        Some(s) => s,
    };
    let start_at = match start_at {
        None => return Err(
            ContestWindowError::InvalidTime {
                field: TimeField::StartTime,
                value: start.clone(),
                contest_id: contest.id.clone(),
            },
        ),
        Some(t) => t,
    };
    if is_before(now, start_at) {
        return Err(ContestWindowError::NotStarted { contest_id: contest.id.clone(), start_time: start.clone() });
    }
    match &contest.end_time {
        None => Ok(()),
        Some(end) => match end_at {
            None => Err(
                ContestWindowError::InvalidTime {
                    field: TimeField::EndTime,
                    value: end.clone(),
                    contest_id: contest.id.clone(),
                },
            ),
            Some(end_at) => if !is_before(now, end_at) {
                Err(ContestWindowError::Ended { contest_id: contest.id.clone(), end_time: end.clone() })
            } else {
                Ok(())
            },
        },
    }
}

/// The start or end time of a contest, read with chrono where it is present.
fn read_time(t: &Option<String>) -> (r: Option<Instant>)
    ensures
        r == time_instant(*t),
{
    match t {
        Some(v) => parse_rfc3339_utc(v.as_str()),
        None => None,
    }
}

/// Whether the contest `id`, looked up among `contests`, runs at `now`.
pub open spec fn window_check(contests: Seq<ContestSummary>, id: Seq<char>, now: Instant) -> Result<(), ContestWindowError> {
    match first_contest(contests, id, 0) {
        None => Err(ContestWindowError::NotFound),
        Some(i) => contest_window(contests[i], now),
    }
}

/// The check that the contest `contest_id` has started and is not over at `now`: the
/// first listed contest with that id must have a start time at or before `now` and, if it
/// has an end time, that must be after `now`.
pub fn validate_contest_window(contests: &Vec<ContestSummary>, contest_id: &str, now: Instant) -> (r: Result<
    (),
    ContestWindowError,
>)
    ensures
        r == window_check(contests@, contest_id@, now),
{
    let mut i: usize = 0;
    while i < contests.len()
        invariant
            i <= contests@.len(),
            first_contest(contests@, contest_id@, 0) == first_contest(contests@, contest_id@, i as int),
        decreases contests@.len() - i,
    {
        let c = &contests[i];
        if str_eq(c.id.as_str(), contest_id) {
            let start_at = read_time(&c.start_time);
            let end_at = read_time(&c.end_time);
            return check_contest_times(c, start_at, end_at, now);
        }
        i = i + 1;
    }
    Err(ContestWindowError::NotFound)
}

proof fn lemma_first_contest_at(contests: Seq<ContestSummary>, id: Seq<char>, from: int, i: int)
    requires
        0 <= from <= i < contests.len(),
        contests[i].id@ == id,
        forall|j: int| from <= j < i ==> #[trigger] contests[j].id@ != id,
    ensures
        first_contest(contests, id, from) == Some(i),
    decreases i - from,
{
    if from < i {
        lemma_first_contest_at(contests, id, from + 1, i);
    }
}

/// Law: the first contest listed with the id `id` passes the window check at `now` exactly
/// when it has a start time at or before `now` and, if it has an end time, that end is
/// after `now` (both times being RFC 3339 timestamps); a contest that has not started, or
/// has ended, fails it.
pub proof fn law_running_contest_passes(contests: Seq<ContestSummary>, id: Seq<char>, now: Instant, i: int)
    requires
        0 <= i < contests.len(),
        contests[i].id@ == id,
        forall|j: int| 0 <= j < i ==> #[trigger] contests[j].id@ != id,
    ensures
        (window_check(contests, id, now) is Ok) <==> {
            &&& contests[i].start_time matches Some(st)
            &&& rfc3339_instant(st@) matches Some(s)
            &&& !instant_before(now, s)
            &&& match contests[i].end_time {
                None => true,
                Some(en) => rfc3339_instant(en@) matches Some(t) && instant_before(now, t),
            }
        },
{
    lemma_first_contest_at(contests, id, 0, i);
}

/// `t` is an instant that the clock, read with `utc_now`, reported.
pub closed spec fn is_clock_reading(t: Instant) -> bool {
    call_ensures(utc_now, (), t)
}

/// The check of the contest window at the current time: the result is the check at an
/// instant that the clock (`utc_now`) reported during the call.
pub fn validate_contest_window_now(contests: &Vec<ContestSummary>, contest_id: &str) -> (r: Result<
    (),
    ContestWindowError,
>)
    ensures
        exists|now: Instant| is_clock_reading(now) && r == #[trigger] window_check(contests@, contest_id@, now),
{
    let now = utc_now();
    let r = validate_contest_window(contests, contest_id, now);
    assert(r == window_check(contests@, contest_id@, now));
    r
}

/// Why the contest's problems cannot be used.
#[derive(Debug, Clone, Copy, PartialEq, Eq)]
pub enum ProblemsError {
    /// The contest has no problems.
    NoProblems,
    /// A problem has the id 0.
    EmptyId,
    /// A problem's short name is blank.
    EmptyShortName,
}

/// The first problem error among the problems from `from` on.
pub open spec fn first_problem_error(problems: Seq<ContestProblemSummary>, from: int) -> Option<ProblemsError>
    decreases problems.len() - from,
{
    if from < 0 || from >= problems.len() {
        None
    } else if problems[from].probid == 0 {
        Some(ProblemsError::EmptyId)
    } else if is_blank(problems[from].short_name@) {
        Some(ProblemsError::EmptyShortName)
    } else {
        first_problem_error(problems, from + 1)
    }
}

/// The checks on the contest's problems: there must be some, and each, in order, must
/// have a non-zero id and a short name that is not blank.
pub fn check_contest_problems(problems: &Vec<ContestProblemSummary>) -> (r: Result<(), ProblemsError>)
    ensures
        r == if problems@.len() == 0 {
            Err(ProblemsError::NoProblems)
        } else {
            match first_problem_error(problems@, 0) {
                Some(e) => Err(e),
                None => Ok::<(), ProblemsError>(()),
            }
        },
{
    if problems.len() == 0 {
        return Err(ProblemsError::NoProblems);
    }
    let mut i: usize = 0;
    while i < problems.len()
        invariant
            i <= problems@.len(),
            problems@.len() > 0,
            first_problem_error(problems@, 0) == first_problem_error(problems@, i as int),
        decreases problems@.len() - i,
    {
        if problems[i].probid == 0 {
            return Err(ProblemsError::EmptyId);
        }
        if is_blank_str(problems[i].short_name.as_str()) {
            return Err(ProblemsError::EmptyShortName);
        }
        i = i + 1;
    }
    Ok(())
}

/// The summary of the checks: the contest id, the problems with their ids and short
/// names, the short names alone, and the solutions root.
pub fn build_preflight_summary(
    contest_id: &str,
    problems: &Vec<ContestProblemSummary>,
    solutions_root: String,
) -> (summary: PreflightSummary)
    ensures
        summary.contest_id@ == contest_id@,
        summary.solutions_root == solutions_root,
        summary.problems@.len() == problems@.len(),
        summary.problem_short_names@.len() == problems@.len(),
        forall|i: int|
            0 <= i < problems@.len() ==> #[trigger] summary.problems@[i].id == problems@[i].probid
                && summary.problems@[i].short_name == problems@[i].short_name
                && summary.problem_short_names@[i] == problems@[i].short_name,
{
    let mut infos: Vec<ContestProblemInfo> = Vec::new();
    let mut names: Vec<String> = Vec::new();
    let mut i: usize = 0;
    while i < problems.len()
        invariant
            i <= problems@.len(),
            infos@.len() == i,
            names@.len() == i,
            forall|k: int|
                0 <= k < i ==> #[trigger] infos@[k].id == problems@[k].probid && infos@[k].short_name
                    == problems@[k].short_name && names@[k] == problems@[k].short_name,
        decreases problems@.len() - i,
    {
        let name = problems[i].short_name.clone();
        let info = ContestProblemInfo { id: problems[i].probid, short_name: problems[i].short_name.clone() };
        assert(name == problems@[i as int].short_name && info.short_name == problems@[i as int].short_name);
        let ghost prev_infos = infos@;
        let ghost prev_names = names@;
        names.push(name);
        infos.push(info);
        assert forall|k: int| 0 <= k < i + 1 implies #[trigger] infos@[k].id == problems@[k].probid
            && infos@[k].short_name == problems@[k].short_name && names@[k] == problems@[k].short_name by {
            if k < i {
                assert(infos@[k] == prev_infos[k] && names@[k] == prev_names[k]);
            }
        }
        i = i + 1;
    }
    PreflightSummary { contest_id: String::from_str(contest_id), problems: infos, problem_short_names: names, solutions_root }
}


/// An entry of a directory listing: whether it is a regular file, and its name.
#[derive(Debug, Clone)]
pub struct DirEntryInfo {
    pub is_file: bool,
    pub file_name: String,
}

/// What a problem directory holds of solution sources.
#[derive(Debug, Clone)]
pub struct SolutionNameCheck {
    pub has_ac: bool,
    pub has_tle: bool,
    /// The stems of the C and C++ sources that are neither `AC` nor `TLE`.
    pub unknown_named_sources: Vec<String>,
}

/// The views of directory entries.
pub open spec fn entry_views(v: Seq<DirEntryInfo>) -> Seq<(bool, Seq<char>)> {
    v.map_values(|e: DirEntryInfo| (e.is_file, e.file_name@))
}

/// A file name with the extension `c` or `cpp`, ASCII case aside.
pub open spec fn is_c_or_cpp(name: Seq<char>) -> bool {
    match stem_and_extension(name).1 {
        Some(e) => eq_ignore_ascii_case(e, "c"@) || eq_ignore_ascii_case(e, "cpp"@),
        None => false,
    }
}

/// What the entries hold: whether an `AC` and a `TLE` source is among the regular C and
/// C++ files, and, in order, the stems of the other such files.
pub open spec fn classify(entries: Seq<(bool, Seq<char>)>) -> (bool, bool, Seq<Seq<char>>)
    decreases entries.len(),
{
    if entries.len() == 0 {
        (false, false, Seq::empty())
    } else {
        let (a, t, u) = classify(entries.drop_last());
        let (is_file, name) = entries.last();
        if !is_file || !is_c_or_cpp(name) {
            (a, t, u)
        } else {
            let stem = stem_and_extension(name).0;
            if eq_ignore_ascii_case(stem, "ac"@) {
                (true, t, u)
            } else if eq_ignore_ascii_case(stem, "tle"@) {
                (a, true, u)
            } else {
                (a, t, u.push(stem))
            }
        }
    }
}

/// The solution sources of a problem directory, from its listing.
pub fn count_c_or_cpp_files(entries: &Vec<DirEntryInfo>) -> (check: SolutionNameCheck)
    ensures
        (check.has_ac, check.has_tle, views(check.unknown_named_sources@)) == classify(entry_views(entries@)),
{
    let ghost ev = entry_views(entries@);
    let mut has_ac = false;
    let mut has_tle = false;
    let mut unknown: Vec<String> = Vec::new();
    let mut i: usize = 0;
    assert(ev.take(0) =~= Seq::<(bool, Seq<char>)>::empty());
    while i < entries.len()
        invariant
            i <= entries@.len(),
            ev == entry_views(entries@),
            (has_ac, has_tle, views(unknown@)) == classify(ev.take(i as int)),
        decreases entries@.len() - i,
    {
        let ghost prev = views(unknown@);
        assert(ev.take(i + 1).drop_last() =~= ev.take(i as int));
        assert(ev.take(i + 1).last() == ev[i as int]);
        let entry = &entries[i];
        if entry.is_file {
            let (stem, ext) = split_file_name(entry.file_name.as_str());
            let c_or_cpp = match ext {
                Some(e) => eq_ignore_ascii_case_str(e, "c") || eq_ignore_ascii_case_str(e, "cpp"),
                None => false,
            };
            if c_or_cpp {
                if eq_ignore_ascii_case_str(stem, "ac") {
                    has_ac = true;
                } else if eq_ignore_ascii_case_str(stem, "tle") {
                    has_tle = true;
                } else {
                    unknown.push(String::from_str(stem));
                    assert(views(unknown@) =~= prev.push(stem@));
                }
            }
        }
        i = i + 1;
    }
    assert(ev.take(entries@.len() as int) =~= ev);
    SolutionNameCheck { has_ac, has_tle, unknown_named_sources: unknown }
}

/// The directory of a problem's solutions: the root joined with its trimmed short name.
pub open spec fn problem_dir_path(root: Seq<char>, short_name: Seq<char>) -> Seq<char> {
    path_join(root, trim(short_name))
}

/// The directory of a problem's solutions.
pub fn problem_dir(solutions_root: &str, short_name: &str) -> (dir: String)
    ensures
        dir@ == problem_dir_path(solutions_root@, short_name@),
{
    join_path(solutions_root, trim_str(short_name))
}

/// What the file system shows of a problem directory: whether it exists, whether it is a
/// directory, and its listing (`None` where it could not be read).
#[derive(Debug, Clone)]
pub struct ProblemDirState {
    pub exists: bool,
    pub is_dir: bool,
    pub entries: Option<Vec<DirEntryInfo>>,
}

/// The views of a problem directory state.
pub open spec fn dir_state_view(st: ProblemDirState) -> (bool, bool, Option<Seq<(bool, Seq<char>)>>) {
    (st.exists, st.is_dir, match st.entries {
        Some(es) => Some(entry_views(es@)),
        None => None,
    })
}

pub open spec fn msg_missing_dir(short: Seq<char>, root: Seq<char>) -> Seq<char> {
    "missing problem directory '"@ + short + "' under "@ + root
}

pub open spec fn msg_not_a_dir(dir: Seq<char>) -> Seq<char> {
    "problem path '"@ + dir + "' is not a directory"@
}

pub open spec fn msg_bad_names(short: Seq<char>, dir: Seq<char>, names: Seq<Seq<char>>) -> Seq<char> {
    "problem '"@ + short + "' has invalid source file names in "@ + dir + ": "@ + join(names, ", "@)
        + " (only AC/TLE are allowed)"@
}

pub open spec fn msg_missing_ac(short: Seq<char>, dir: Seq<char>) -> Seq<char> {
    "problem '"@ + short + "' is missing AC.c or AC.cpp in "@ + dir
}

pub open spec fn msg_missing_tle(short: Seq<char>, dir: Seq<char>) -> Seq<char> {
    "problem '"@ + short + "' is missing TLE.c or TLE.cpp in "@ + dir
}

/// The issues of one problem directory, in order; `None` where its listing could not be
/// read.
pub open spec fn problem_issues(
    root: Seq<char>,
    short: Seq<char>,
    st: (bool, bool, Option<Seq<(bool, Seq<char>)>>),
) -> Option<Seq<Seq<char>>> {
    let dir = problem_dir_path(root, short);
    if !st.0 {
        Some(seq![msg_missing_dir(short, root)])
    } else if !st.1 {
        Some(seq![msg_not_a_dir(dir)])
    } else {
        match st.2 {
            None => None,
            Some(es) => {
                let (a, t, u) = classify(es);
                let i1: Seq<Seq<char>> = if u.len() > 0 {
                    seq![msg_bad_names(short, dir, u)]
                } else {
                    Seq::empty()
                };
                let i2: Seq<Seq<char>> = if !a {
                    seq![msg_missing_ac(short, dir)]
                } else {
                    Seq::empty()
                };
                let i3: Seq<Seq<char>> = if !t {
                    seq![msg_missing_tle(short, dir)]
                } else {
                    Seq::empty()
                };
                Some(i1 + i2 + i3)
            },
        }
    }
}

/// The issues of the first `n` problems, in order, or the position of the first whose
/// listing could not be read.
pub open spec fn layout_issues(
    root: Seq<char>,
    shorts: Seq<Seq<char>>,
    states: Seq<(bool, bool, Option<Seq<(bool, Seq<char>)>>)>,
    n: int,
) -> Result<Seq<Seq<char>>, int>
    decreases n,
{
    if n <= 0 {
        Ok(Seq::empty())
    } else {
        match layout_issues(root, shorts, states, n - 1) {
            Err(k) => Err(k),
            Ok(prev) => match problem_issues(root, shorts[n - 1], states[n - 1]) {
                None => Err(n - 1),
                Some(more) => Ok(prev + more),
            },
        }
    }
}

proof fn lemma_layout_err_sticks(
    root: Seq<char>,
    shorts: Seq<Seq<char>>,
    states: Seq<(bool, bool, Option<Seq<(bool, Seq<char>)>>)>,
    k: int,
    m: int,
)
    requires
        0 <= k <= m,
        layout_issues(root, shorts, states, k) is Err,
    ensures
        layout_issues(root, shorts, states, m) == layout_issues(root, shorts, states, k),
    decreases m - k,
{
    if m > k {
        lemma_layout_err_sticks(root, shorts, states, k, m - 1);
    }
}

/// A directory entry that is a regular C or C++ source whose stem is neither `AC` nor
/// `TLE` (ASCII case aside).
pub open spec fn is_stray_source(e: (bool, Seq<char>)) -> bool {
    &&& e.0
    &&& is_c_or_cpp(e.1)
    &&& !eq_ignore_ascii_case(stem_and_extension(e.1).0, "ac"@)
    &&& !eq_ignore_ascii_case(stem_and_extension(e.1).0, "tle"@)
}

/// The problem directory `d` exists, is a directory, and its `k`-th listed entry is a
/// stray source.
pub open spec fn dir_has_stray(d: ProblemDirState, k: int) -> bool {
    &&& d.exists
    &&& d.is_dir
    &&& match d.entries {
        Some(es) => 0 <= k < es@.len() && is_stray_source((es@[k].is_file, es@[k].file_name@)),
        None => false,
    }
}

proof fn lemma_stray_listed(es: Seq<(bool, Seq<char>)>, k: int)
    requires
        0 <= k < es.len(),
        is_stray_source(es[k]),
    ensures
        classify(es).2.contains(stem_and_extension(es[k].1).0),
    decreases es.len(),
{
    let init = es.drop_last();
    if k == es.len() - 1 {
        let u = classify(init).2;
        assert(classify(es).2 == u.push(stem_and_extension(es[k].1).0));
        assert(classify(es).2[u.len() as int] == stem_and_extension(es[k].1).0);
    } else {
        assert(init[k] == es[k]);
        lemma_stray_listed(init, k);
        let u = classify(init).2;
        let x = choose|x: int| 0 <= x < u.len() && u[x] == stem_and_extension(es[k].1).0;
        let (is_file, name) = es.last();
        if is_file && is_c_or_cpp(name) && !eq_ignore_ascii_case(stem_and_extension(name).0, "ac"@)
            && !eq_ignore_ascii_case(stem_and_extension(name).0, "tle"@) {
            assert(classify(es).2 == u.push(stem_and_extension(name).0));
            assert(classify(es).2[x] == u[x]);
        } else {
            assert(classify(es).2 == u);
        }
    }
}

/// Law: a problem directory that lists a stray source (a regular `.c` or `.cpp` file whose
/// stem is neither `AC` nor `TLE`) always has the invalid-names issue, first among its
/// issues and naming that stem, whatever else the directory holds.
pub proof fn law_stray_source_is_an_issue(root: Seq<char>, short: Seq<char>, es: Seq<(bool, Seq<char>)>, k: int)
    requires
        0 <= k < es.len(),
        is_stray_source(es[k]),
    ensures
        problem_issues(root, short, (true, true, Some(es))) matches Some(issues) && issues.len() > 0
            && issues[0] == msg_bad_names(short, problem_dir_path(root, short), classify(es).2)
            && classify(es).2.contains(stem_and_extension(es[k].1).0),
{
    lemma_stray_listed(es, k);
    let u = classify(es).2;
    assert(u.len() > 0);
}

/// Law: `stem.c`, `stem.cpp` and `stem.CPP` are C or C++ sources with the stem `stem`,
/// whatever the (non-empty) stem.
pub proof fn law_c_and_cpp_sources_are_recognized(stem: Seq<char>)
    requires
        stem.len() > 0,
    ensures
        is_c_or_cpp(stem + seq!['.', 'c']) && stem_and_extension(stem + seq!['.', 'c']).0 == stem,
        is_c_or_cpp(stem + seq!['.', 'c', 'p', 'p']) && stem_and_extension(stem + seq!['.', 'c', 'p', 'p']).0 == stem,
        is_c_or_cpp(stem + seq!['.', 'C', 'P', 'P']),
{
    reveal_strlit("c");
    reveal_strlit("cpp");
    assert(stem + seq!['.', 'c'] =~= stem + seq!['.'] + seq!['c']);
    assert(stem + seq!['.', 'c', 'p', 'p'] =~= stem + seq!['.'] + seq!['c', 'p', 'p']);
    assert(stem + seq!['.', 'C', 'P', 'P'] =~= stem + seq!['.'] + seq!['C', 'P', 'P']);
    assert((stem + seq!['.', 'c']).len() > 2);
    assert((stem + seq!['.', 'c', 'p', 'p']).len() > 2);
    assert((stem + seq!['.', 'C', 'P', 'P']).len() > 2);
    law_file_name_splits_at_last_dot(stem, seq!['c']);
    law_file_name_splits_at_last_dot(stem, seq!['c', 'p', 'p']);
    law_file_name_splits_at_last_dot(stem, seq!['C', 'P', 'P']);
    assert(seq!['c'] =~= "c"@);
    assert(seq!['c', 'p', 'p'] =~= "cpp"@);
    assert(crate::text::ascii_lower('C') == crate::text::ascii_lower('c'));
    assert(crate::text::ascii_lower('P') == crate::text::ascii_lower('p'));
}

/// A directory entry that is a regular C or C++ source with the stem `stem` (ASCII case
/// aside).
pub open spec fn is_source_named(e: (bool, Seq<char>), stem: Seq<char>) -> bool {
    e.0 && is_c_or_cpp(e.1) && eq_ignore_ascii_case(stem_and_extension(e.1).0, stem)
}

proof fn lemma_classify(es: Seq<(bool, Seq<char>)>)
    ensures
        classify(es).0 <==> exists|k: int| 0 <= k < es.len() && #[trigger] is_source_named(es[k], "ac"@),
        classify(es).1 <==> exists|k: int| 0 <= k < es.len() && #[trigger] is_source_named(es[k], "tle"@),
        classify(es).2.len() > 0 <==> exists|k: int| 0 <= k < es.len() && #[trigger] is_stray_source(es[k]),
    decreases es.len(),
{
    reveal_strlit("ac");
    reveal_strlit("tle");
    if es.len() > 0 {
        let init = es.drop_last();
        let last = es.len() - 1;
        lemma_classify(init);
        assert forall|k: int| 0 <= k < init.len() implies init[k] == es[k] by {}
        // A stem cannot name both solutions: the names differ in length.
        assert(!(eq_ignore_ascii_case(stem_and_extension(es[last].1).0, "ac"@) && eq_ignore_ascii_case(
            stem_and_extension(es[last].1).0,
            "tle"@,
        )));
        if exists|k: int| 0 <= k < es.len() && #[trigger] is_source_named(es[k], "ac"@) {
            let k = choose|k: int| 0 <= k < es.len() && #[trigger] is_source_named(es[k], "ac"@);
            if k < last {
                assert(is_source_named(init[k], "ac"@));
            }
        }
        if exists|k: int| 0 <= k < es.len() && #[trigger] is_source_named(es[k], "tle"@) {
            let k = choose|k: int| 0 <= k < es.len() && #[trigger] is_source_named(es[k], "tle"@);
            if k < last {
                assert(is_source_named(init[k], "tle"@));
            }
        }
        if exists|k: int| 0 <= k < es.len() && #[trigger] is_stray_source(es[k]) {
            let k = choose|k: int| 0 <= k < es.len() && #[trigger] is_stray_source(es[k]);
            if k < last {
                assert(is_stray_source(init[k]));
            }
        }
        if exists|k: int| 0 <= k < init.len() && #[trigger] is_source_named(init[k], "ac"@) {
            let k = choose|k: int| 0 <= k < init.len() && #[trigger] is_source_named(init[k], "ac"@);
            assert(is_source_named(es[k], "ac"@));
        }
        if exists|k: int| 0 <= k < init.len() && #[trigger] is_source_named(init[k], "tle"@) {
            let k = choose|k: int| 0 <= k < init.len() && #[trigger] is_source_named(init[k], "tle"@);
            assert(is_source_named(es[k], "tle"@));
        }
        if exists|k: int| 0 <= k < init.len() && #[trigger] is_stray_source(init[k]) {
            let k = choose|k: int| 0 <= k < init.len() && #[trigger] is_stray_source(init[k]);
            assert(is_stray_source(es[k]));
        }
        assert(is_source_named(es[last], "ac"@) || is_source_named(es[last], "tle"@) || is_stray_source(es[last])
            || !(es[last].0 && is_c_or_cpp(es[last].1)));
    }
}

/// Law: a problem directory that exists and is a directory has no issue exactly when its
/// listing holds an `AC` source, a `TLE` source (regular `.c` or `.cpp` files, ASCII case
/// aside) and no other C or C++ source; a missing directory, or a path that is not a
/// directory, always has an issue.
pub proof fn law_problem_directory_clean(root: Seq<char>, short: Seq<char>, st: (bool, bool, Option<Seq<(bool, Seq<char>)>>))
    ensures
        !st.0 || !st.1 ==> (problem_issues(root, short, st) matches Some(issues) && issues.len() > 0),
        st.0 && st.1 && st.2 is Some ==> (problem_issues(root, short, st) == Some(Seq::<Seq<char>>::empty())
            <==> {
            &&& exists|k: int| 0 <= k < st.2->0.len() && #[trigger] is_source_named(st.2->0[k], "ac"@)
            &&& exists|k: int| 0 <= k < st.2->0.len() && #[trigger] is_source_named(st.2->0[k], "tle"@)
            &&& forall|k: int| 0 <= k < st.2->0.len() ==> !#[trigger] is_stray_source(st.2->0[k])
        }),
{
    if let Some(es) = st.2 {
        lemma_classify(es);
        if st.0 && st.1 {
            let (a, t, u) = classify(es);
            let i1: Seq<Seq<char>> = if u.len() > 0 {
                seq![msg_bad_names(short, problem_dir_path(root, short), u)]
            } else {
                Seq::empty()
            };
            let i2: Seq<Seq<char>> = if !a { seq![msg_missing_ac(short, problem_dir_path(root, short))] } else { Seq::empty() };
            let i3: Seq<Seq<char>> = if !t { seq![msg_missing_tle(short, problem_dir_path(root, short))] } else { Seq::empty() };
            assert(problem_issues(root, short, st) == Some(i1 + i2 + i3));
            assert((i1 + i2 + i3).len() == i1.len() + i2.len() + i3.len());
            if (i1 + i2 + i3).len() == 0 {
                assert(i1 + i2 + i3 =~= Seq::<Seq<char>>::empty());
            }
        }
    }
}

/// Law: where the directory of problem `j` lists a stray source, the layout has issues (or
/// an earlier directory could not be listed): it is never free of issues.
pub proof fn law_stray_source_blocks_layout(
    root: Seq<char>,
    shorts: Seq<Seq<char>>,
    states: Seq<(bool, bool, Option<Seq<(bool, Seq<char>)>>)>,
    n: int,
    j: int,
    k: int,
)
    requires
        0 <= j < n <= states.len(),
        states[j].0,
        states[j].1,
        states[j].2 matches Some(es) && 0 <= k < es.len() && is_stray_source(es[k]),
    ensures
        layout_issues(root, shorts, states, n) != Ok::<Seq<Seq<char>>, int>(Seq::empty()),
    decreases n,
{
    if n == j + 1 {
        let es = states[j].2->0;
        law_stray_source_is_an_issue(root, shorts[j], es, k);
        assert(states[j] == (true, true, Some(es)));
        match layout_issues(root, shorts, states, j) {
            Err(_) => {},
            Ok(prev) => {
                let more = problem_issues(root, shorts[j], states[j])->0;
                assert(layout_issues(root, shorts, states, n) == Ok::<Seq<Seq<char>>, int>(prev + more));
                assert((prev + more).len() > 0);
            },
        }
    } else {
        law_stray_source_blocks_layout(root, shorts, states, n - 1, j, k);
        match layout_issues(root, shorts, states, n - 1) {
            Err(_) => {},
            Ok(prev) => {
                assert(prev.len() > 0);
                match problem_issues(root, shorts[n - 1], states[n - 1]) {
                    None => {},
                    Some(more) => {
                        assert((prev + more).len() > 0);
                    },
                }
            },
        }
    }
}

/// Why the solutions layout is unusable.
#[derive(Debug, Clone, PartialEq, Eq)]
pub enum LayoutError {
    /// The solutions root does not exist.
    RootMissing { root: String },
    /// The solutions root is not a directory.
    RootNotDir { root: String },
    /// A problem directory could not be listed.
    Unreadable { dir: String },
    /// The problem directories have these issues, in problem order.
    Issues { issues: Vec<String> },
}

/// The short names of the problems.
pub open spec fn short_names(problems: Seq<ContestProblemSummary>) -> Seq<Seq<char>> {
    problems.map_values(|p: ContestProblemSummary| p.short_name@)
}

/// The states of the problem directories.
pub open spec fn dir_states(dirs: Seq<ProblemDirState>) -> Seq<(bool, bool, Option<Seq<(bool, Seq<char>)>>)> {
    dirs.map_values(|d: ProblemDirState| dir_state_view(d))
}

fn issues_of_problem(root: &str, short: &str, st: &ProblemDirState) -> (r: Option<Vec<String>>)
    ensures
        match problem_issues(root@, short@, dir_state_view(*st)) {
            None => r is None,
            Some(s) => r is Some && views(r->0@) == s,
        },
{
    let mut out: Vec<String> = Vec::new();
    if !st.exists {
        let mut m = String::from_str("missing problem directory '");
        m.append(short);
        m.append("' under ");
        m.append(root);
        out.push(m);
        assert(views(out@) =~= seq![msg_missing_dir(short@, root@)]);
        return Some(out);
    }
    let dir = problem_dir(root, short);
    if !st.is_dir {
        let mut m = String::from_str("problem path '");
        m.append(dir.as_str());
        m.append("' is not a directory");
        out.push(m);
        assert(views(out@) =~= seq![msg_not_a_dir(dir@)]);
        return Some(out);
    }
    let entries = match &st.entries {
        None => return None,
        Some(es) => es,
    };
    let check = count_c_or_cpp_files(entries);
    let ghost u = views(check.unknown_named_sources@);
    let ghost dv = dir@;
    if check.unknown_named_sources.len() > 0 {
        let names = join_strs(&check.unknown_named_sources, ", ");
        let mut m = String::from_str("problem '");
        m.append(short);
        m.append("' has invalid source file names in ");
        m.append(dir.as_str());
        m.append(": ");
        m.append(names.as_str());
        m.append(" (only AC/TLE are allowed)");
        out.push(m);
    }
    let ghost after1 = views(out@);
    assert(after1 =~= if u.len() > 0 { seq![msg_bad_names(short@, dv, u)] } else { Seq::<Seq<char>>::empty() });
    if !check.has_ac {
        let mut m = String::from_str("problem '");
        m.append(short);
        m.append("' is missing AC.c or AC.cpp in ");
        m.append(dir.as_str());
        out.push(m);
    }
    let ghost after2 = views(out@);
    assert(after2 =~= after1 + if !check.has_ac { seq![msg_missing_ac(short@, dv)] } else { Seq::<Seq<char>>::empty() });
    if !check.has_tle {
        let mut m = String::from_str("problem '");
        m.append(short);
        m.append("' is missing TLE.c or TLE.cpp in ");
        m.append(dir.as_str());
        out.push(m);
    }
    assert(views(out@) =~= after2 + if !check.has_tle { seq![msg_missing_tle(short@, dv)] } else { Seq::<Seq<char>>::empty() });
    Some(out)
}

/// The check of the solutions layout, given what the file system shows of the solutions
/// root and of each problem's directory (`dirs[i]` for `problems[i]`): the root, resolved
/// against the configuration's directory, must exist and be a directory; a problem
/// directory that cannot be listed stops the check; otherwise every issue of every problem
/// directory is collected, in order, and there must be none.
pub fn validate_solutions_layout(
    config_dir: Option<&str>,
    solutions_path: &str,
    problems: &Vec<ContestProblemSummary>,
    root_exists: bool,
    root_is_dir: bool,
    dirs: &Vec<ProblemDirState>,
) -> (r: Result<String, LayoutError>)
    requires
        dirs@.len() == problems@.len(),
    ensures
        ({
            let root = resolved_path(
                match config_dir {
                    Some(d) => Some(d@),
                    None => None,
                },
                solutions_path@,
            );
            let found = layout_issues(root, short_names(problems@), dir_states(dirs@), problems@.len() as int);
            match r {
                Ok(path) => path@ == root && root_exists && root_is_dir && found == Ok::<Seq<Seq<char>>, int>(
                    Seq::empty(),
                ),
                Err(LayoutError::RootMissing { root: p }) => p@ == root && !root_exists,
                Err(LayoutError::RootNotDir { root: p }) => p@ == root && root_exists && !root_is_dir,
                Err(LayoutError::Unreadable { dir }) => root_exists && root_is_dir && found is Err
                    && dir@ == problem_dir_path(root, short_names(problems@)[found->Err_0]),
                Err(LayoutError::Issues { issues }) => root_exists && root_is_dir && found is Ok
                    && found->Ok_0.len() > 0 && views(issues@) == found->Ok_0,
            }
        }),
        forall|j: int, k: int| 0 <= j < dirs@.len() && #[trigger] dir_has_stray(dirs@[j], k) ==> r is Err,
{
    let root = resolve_path(config_dir, solutions_path);
    if !root_exists {
        return Err(LayoutError::RootMissing { root });
    }
    if !root_is_dir {
        return Err(LayoutError::RootNotDir { root });
    }
    let ghost shorts = short_names(problems@);
    let ghost states = dir_states(dirs@);
    let ghost resolved = root@;
    let mut issues: Vec<String> = Vec::new();
    let mut i: usize = 0;
    assert(views(issues@) =~= Seq::<Seq<char>>::empty());
    while i < problems.len()
        invariant
            i <= problems@.len(),
            dirs@.len() == problems@.len(),
            shorts == short_names(problems@),
            states == dir_states(dirs@),
            root@ == resolved,
            resolved == resolved_path(
                match config_dir {
                    Some(d) => Some(d@),
                    None => None,
                },
                solutions_path@,
            ),
            root_exists,
            root_is_dir,
            layout_issues(root@, shorts, states, i as int) == Ok::<Seq<Seq<char>>, int>(views(issues@)),
        decreases problems@.len() - i,
    {
        assert(shorts[i as int] == problems@[i as int].short_name@);
        assert(states[i as int] == dir_state_view(dirs@[i as int]));
        let ghost prev = views(issues@);
        match issues_of_problem(root.as_str(), problems[i].short_name.as_str(), &dirs[i]) {
            None => {
                let dir = problem_dir(root.as_str(), problems[i].short_name.as_str());
                proof {
                    assert(problem_issues(root@, shorts[i as int], states[i as int]) is None);
                    assert(layout_issues(root@, shorts, states, i + 1) == Err::<Seq<Seq<char>>, int>(i as int));
                    lemma_layout_err_sticks(root@, shorts, states, i + 1, problems@.len() as int);
                    assert(layout_issues(root@, shorts, states, problems@.len() as int) == Err::<Seq<Seq<char>>, int>(i as int));
                    assert(dir@ == problem_dir_path(root@, shorts[i as int]));
                }
                return Err(LayoutError::Unreadable { dir });
            },
            Some(more) => {
                let mut k: usize = 0;
                while k < more.len()
                    invariant
                        k <= more@.len(),
                        views(issues@) == prev + views(more@).take(k as int),
                    decreases more@.len() - k,
                {
                    let ghost before = views(issues@);
                    issues.push(more[k].clone());
                    assert(views(issues@) =~= before.push(more@[k as int]@));
                    assert(views(more@).take(k + 1) =~= views(more@).take(k as int).push(more@[k as int]@));
                    assert(views(issues@) =~= prev + views(more@).take(k + 1));
                    k = k + 1;
                }
                assert(views(more@).take(more@.len() as int) =~= views(more@));
            },
        }
        i = i + 1;
    }
    if issues.len() > 0 {
        return Err(LayoutError::Issues { issues });
    }
    assert(views(issues@) =~= Seq::<Seq<char>>::empty());
    proof {
        assert forall|j: int, k: int| 0 <= j < dirs@.len() && #[trigger] dir_has_stray(dirs@[j], k) implies false by {
            let es = dirs@[j].entries->0;
            assert(states[j] == dir_state_view(dirs@[j]));
            assert(entry_views(es@)[k] == (es@[k].is_file, es@[k].file_name@));
            law_stray_source_blocks_layout(root@, shorts, states, problems@.len() as int, j, k);
        }
    }
    Ok(root)
}

} // verus!

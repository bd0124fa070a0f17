use vstd::prelude::*;
use vstd::string::*;
use std::collections::HashSet;
use rand::Rng;

use crate::models::TeamCredential;
use crate::paths::{join_path, path_join};
use crate::preflight::ContestProblemInfo;

verus! {

broadcast use vstd::std_specs::hash::group_hash_axioms;

/// Which of a problem's two prepared solutions a participant submits.
#[derive(Debug, Clone, Copy, PartialEq, Eq)]
pub enum SolutionKind {
    /// The accepted solution (`AC.c` or `AC.cpp`).
    Ac,
    /// The solution that runs out of time (`TLE.c` or `TLE.cpp`).
    Tle,
}

/// A contest problem with the sources of both its prepared solutions.
#[derive(Debug, Clone)]
pub struct ContestProblemAsset {
    pub id: u32,
    pub short_name: String,
    pub ac_filename: String,
    pub ac_code: String,
    pub tle_filename: String,
    pub tle_code: String,
}

/// What one simulated participant carries through the load test.
#[derive(Debug)]
pub struct AssignedUser {
    pub username: String,
    pub password: String,
    pub login_completed: bool,
    pub session_cookie: Option<String>,
    pub accepted_problem_ids: HashSet<u32>,
    pub last_solution_kind: Option<SolutionKind>,
}

impl AssignedUser {
    /// A participant assigned `credential`, not yet logged in, with nothing accepted.
    pub fn new(credential: &TeamCredential) -> (user: AssignedUser)
        ensures
            user.username == credential.username,
            user.password == credential.password,
            !user.login_completed,
            user.session_cookie is None,
            user.accepted_problem_ids@ == Set::<u32>::empty(),
            user.last_solution_kind is None,
    {
        AssignedUser {
            username: credential.username.clone(),
            password: credential.password.clone(),
            login_completed: false,
            session_cookie: None,
            accepted_problem_ids: HashSet::new(),
            last_solution_kind: None,
        }
    }

    /// Records that the problem `problem_id` was solved with an accepted submission.
    pub fn mark_problem_accepted(&mut self, problem_id: u32)
        ensures
            final(self).accepted_problem_ids@ == old(self).accepted_problem_ids@.insert(problem_id),
            final(self).username == old(self).username,
            final(self).password == old(self).password,
            final(self).login_completed == old(self).login_completed,
            final(self).session_cookie == old(self).session_cookie,
            final(self).last_solution_kind == old(self).last_solution_kind,
    {
        self.accepted_problem_ids.insert(problem_id);
    }

    /// Whether the participant has as many accepted problems as the contest has problems.
    pub fn all_problems_accepted(&self, problem_count: usize) -> (done: bool)
        ensures
            done == (self.accepted_problem_ids@.len() >= problem_count),
    {
        self.accepted_problem_ids.len() >= problem_count
    }

    /// The session cookie to send with a request: present and not empty.
    pub fn usable_session_cookie(&self) -> (cookie: Option<String>)
        ensures
            match self.session_cookie {
                Some(c) => if c@.len() > 0 {
                    cookie == Some(c)
                } else {
                    cookie is None
                },
                None => cookie is None,
            },
    {
        match &self.session_cookie {
            Some(c) => if c.as_str().unicode_len() > 0 {
                Some(c.clone())
            } else {
                None
            },
            None => None,
        }
    }
}

/// What a participant waiting for all logins learns from the login barrier.
#[derive(Debug, Clone, Copy, PartialEq, Eq)]
pub enum GateStatus {
    /// Some participant's login failed: the synchronized phase is off.
    Failed,
    /// Every participant has logged in.
    Open,
    /// Logins are still outstanding.
    Waiting,
}

/// The count of logins behind which all participants wait before the synchronized
/// phase begins.
#[derive(Debug, Clone)]
pub struct LoginGate {
    pub total_users: usize,
    pub logged_in_users: usize,
    pub login_failed: bool,
}

/// The status of the login barrier: a failure wins over a full count.
pub open spec fn gate_status(g: LoginGate) -> GateStatus {
    if g.login_failed {
        GateStatus::Failed
    } else if g.logged_in_users >= g.total_users {
        GateStatus::Open
    } else {
        GateStatus::Waiting
    }
}

impl LoginGate {
    /// A login barrier for `total_users` participants, none logged in.
    pub fn new(total_users: usize) -> (g: LoginGate)
        ensures
            g.total_users == total_users,
            g.logged_in_users == 0,
            !g.login_failed,
    {
        LoginGate { total_users, logged_in_users: 0, login_failed: false }
    }

    /// Counts one more successful login and returns the new count. A barrier that failed
    /// stays failed.
    pub fn mark_login_success(&mut self) -> (count: usize)
        requires
            old(self).logged_in_users < usize::MAX,
        ensures
            final(self).logged_in_users == old(self).logged_in_users + 1,
            count == final(self).logged_in_users,
            final(self).total_users == old(self).total_users,
            final(self).login_failed == old(self).login_failed,
            old(self).login_failed ==> gate_status(*final(self)) == GateStatus::Failed,
    {
        self.logged_in_users = self.logged_in_users + 1;
        self.logged_in_users
    }

    /// Records that a login failed: from now on the barrier reports `Failed`.
    pub fn mark_login_failed(&mut self)
        ensures
            final(self).login_failed,
            final(self).logged_in_users == old(self).logged_in_users,
            final(self).total_users == old(self).total_users,
            gate_status(*final(self)) == GateStatus::Failed,
    {
        self.login_failed = true;
    }

    /// Where the login barrier stands.
    pub fn status(&self) -> (s: GateStatus)
        ensures
            s == gate_status(*self),
    {
        if self.login_failed {
            GateStatus::Failed
        } else if self.logged_in_users >= self.total_users {
            GateStatus::Open
        } else {
            GateStatus::Waiting
        }
    }
}

/// Why a load test cannot start.
#[derive(Debug, Clone, Copy, PartialEq, Eq)]
pub enum LoadTestInitError {
    /// The team CSV gave no accounts.
    NoTeams,
    /// The contest has no problems.
    NoProblems,
}

/// The checks made before a load test is set up: at least one team account and at least
/// one problem, in that order.
pub fn check_load_test_inputs(
    team_credentials: &Vec<TeamCredential>,
    contest_problems: &Vec<ContestProblemInfo>,
) -> (r: Result<(), LoadTestInitError>)
    ensures
        team_credentials@.len() == 0 ==> r == Err::<(), LoadTestInitError>(LoadTestInitError::NoTeams),
        team_credentials@.len() > 0 && contest_problems@.len() == 0 ==> r == Err::<(), LoadTestInitError>(
            LoadTestInitError::NoProblems,
        ),
        team_credentials@.len() > 0 && contest_problems@.len() > 0 ==> r is Ok,
{
    if team_credentials.len() == 0 {
        return Err(LoadTestInitError::NoTeams);
    }
    if contest_problems.len() == 0 {
        return Err(LoadTestInitError::NoProblems);
    }
    Ok(())
}

/// Draws a number from `0..=max`, uniformly, with `rand::rng().random_range(0..=max)`.
/// Claimed: the number is at most `max`; which one it is rests on chance and is left
/// unsaid.
#[verifier::external_body]
pub(crate) fn random_up_to(max: u64) -> (r: u64)
    ensures
        r <= max,
{
    rand::rng().random_range(0..=max)
}

/// The positions of the problems whose id is not yet accepted, in order.
pub open spec fn unsolved_positions(ids: Seq<u32>, accepted: Set<u32>) -> Seq<usize>
    decreases ids.len(),
{
    if ids.len() == 0 {
        Seq::empty()
    } else {
        let r = unsolved_positions(ids.drop_last(), accepted);
        if accepted.contains(ids.last()) {
            r
        } else {
            r.push((ids.len() - 1) as usize)
        }
    }
}

pub proof fn lemma_unsolved_positions(ids: Seq<u32>, accepted: Set<u32>)
    requires
        ids.len() <= usize::MAX,
    ensures
        forall|k: int|
            0 <= k < unsolved_positions(ids, accepted).len() ==> #[trigger] unsolved_positions(ids, accepted)[k]
                < ids.len() && !accepted.contains(ids[unsolved_positions(ids, accepted)[k] as int]),
        forall|i: int|
            0 <= i < ids.len() && !accepted.contains(ids[i]) ==> exists|k: int|
                0 <= k < unsolved_positions(ids, accepted).len() && #[trigger] unsolved_positions(ids, accepted)[k]
                    == i,
        unsolved_positions(ids, accepted).len() <= ids.len(),
    decreases ids.len(),
{
    if ids.len() > 0 {
        let init = ids.drop_last();
        lemma_unsolved_positions(init, accepted);
        let r = unsolved_positions(init, accepted);
        assert forall|i: int| 0 <= i < ids.len() && !accepted.contains(ids[i]) implies exists|k: int|
            0 <= k < unsolved_positions(ids, accepted).len() && #[trigger] unsolved_positions(ids, accepted)[k] == i by {
            if i < ids.len() - 1 {
                assert(init[i] == ids[i]);
                let k = choose|k: int| 0 <= k < r.len() && #[trigger] r[k] == i;
                assert(unsolved_positions(ids, accepted)[k] == i);
            } else {
                assert(ids.last() == ids[i]);
                assert(unsolved_positions(ids, accepted)[r.len() as int] == i);
            }
        }
    }
}

/// The positions, in `problem_ids`, of the problems that `accepted` does not hold yet.
pub fn unsolved_problem_positions(problem_ids: &Vec<u32>, accepted: &HashSet<u32>) -> (r: Vec<usize>)
    ensures
        r@ == unsolved_positions(problem_ids@, accepted@),
{
    let mut out: Vec<usize> = Vec::new();
    let mut i: usize = 0;
    assert(problem_ids@.take(0) =~= Seq::<u32>::empty());
    while i < problem_ids.len()
        invariant
            i <= problem_ids@.len(),
            out@ == unsolved_positions(problem_ids@.take(i as int), accepted@),
        decreases problem_ids@.len() - i,
    {
        assert(problem_ids@.take(i + 1).drop_last() =~= problem_ids@.take(i as int));
        assert(problem_ids@.take(i + 1).last() == problem_ids@[i as int]);
        if !accepted.contains(&problem_ids[i]) {
            out.push(i);
        }
        i = i + 1;
    }
    assert(problem_ids@.take(problem_ids@.len() as int) =~= problem_ids@);
    out
}

/// Picks, at random, one of the problems whose id `accepted` does not hold yet, and
/// returns its position: `None` exactly when every problem id is accepted.
pub fn pick_random_unsolved_problem(problem_ids: &Vec<u32>, accepted: &HashSet<u32>) -> (picked:
    Option<usize>)
    ensures
        picked is None <==> unsolved_positions(problem_ids@, accepted@).len() == 0,
        picked is None ==> forall|i: int| 0 <= i < problem_ids@.len() ==> accepted@.contains(#[trigger] problem_ids@[i]),
        picked matches Some(i) ==> unsolved_positions(problem_ids@, accepted@).contains(i) && i < problem_ids@.len()
            && !accepted@.contains(problem_ids@[i as int]),
{
    let unsolved = unsolved_problem_positions(problem_ids, accepted);
    let ghost id_count = problem_ids.len();
    proof {
        lemma_unsolved_positions(problem_ids@, accepted@);
    }
    if unsolved.len() == 0 {
        proof {
            assert forall|i: int| 0 <= i < problem_ids@.len() implies accepted@.contains(#[trigger] problem_ids@[i]) by {
                if !accepted@.contains(problem_ids@[i]) {
                    let k = choose|k: int| 0 <= k < unsolved@.len() && #[trigger] unsolved@[k] == i;
                }
            }
        }
        return None;
    }
    let n = unsolved.len();
    let pick = random_up_to((n - 1) as u64) as usize;
    let i = unsolved[pick];
    assert(unsolved@[pick as int] == i);
    Some(i)
}


/// The stem of a solution's file name.
pub open spec fn solution_stem(kind: SolutionKind) -> Seq<char> {
    match kind {
        SolutionKind::Ac => "AC"@,
        SolutionKind::Tle => "TLE"@,
    }
}

/// The files that may hold a problem's `kind` solution, in the order they are tried: the
/// C++ source before the C source. Each is its file name and its path under
/// `problem_dir`.
pub fn solution_file_candidates(problem_dir: &str, kind: SolutionKind) -> (candidates: Vec<(String, String)>)
    ensures
        candidates@.len() == 2,
        candidates@[0].0@ == solution_stem(kind) + ".cpp"@,
        candidates@[1].0@ == solution_stem(kind) + ".c"@,
        forall|i: int| 0 <= i < 2 ==> #[trigger] candidates@[i].1@ == path_join(problem_dir@, candidates@[i].0@),
{
    let stem = match kind {
        SolutionKind::Ac => "AC",
        SolutionKind::Tle => "TLE",
    };
    let mut cpp = String::from_str(stem);
    cpp.append(".cpp");
    let mut c = String::from_str(stem);
    c.append(".c");
    let cpp_path = join_path(problem_dir, cpp.as_str());
    let c_path = join_path(problem_dir, c.as_str());
    let mut out: Vec<(String, String)> = Vec::new();
    out.push((cpp, cpp_path));
    out.push((c, c_path));
    out
}

/// The asset of a problem: its id and short name, with the file names and sources of its
/// two solutions.
pub fn problem_asset(
    problem: &ContestProblemInfo,
    ac_filename: String,
    ac_code: String,
    tle_filename: String,
    tle_code: String,
) -> (asset: ContestProblemAsset)
    ensures
        asset.id == problem.id,
        asset.short_name == problem.short_name,
        asset.ac_filename == ac_filename,
        asset.ac_code == ac_code,
        asset.tle_filename == tle_filename,
        asset.tle_code == tle_code,
{
    ContestProblemAsset {
        id: problem.id,
        short_name: problem.short_name.clone(),
        ac_filename,
        ac_code,
        tle_filename,
        tle_code,
    }
}

} // verus!

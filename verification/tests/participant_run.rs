use onyx::loadtest::{
    check_load_test_inputs, pick_random_unsolved_problem, problem_asset, solution_file_candidates,
    unsolved_problem_positions, AssignedUser, GateStatus, LoadTestInitError, LoginGate,
    SolutionKind,
};
use onyx::models::TeamCredential;
use onyx::participant::{
    FlowAction, FlowEvent, FlowOutcome, FlowStep, ParticipantFlow, TeamPage, WaitStage,
    MAX_SUBMISSION_ATTEMPTS,
};
use onyx::preflight::ContestProblemInfo;
use std::collections::HashSet;

fn user() -> AssignedUser {
    AssignedUser::new(&TeamCredential { username: "team001".to_string(), password: "pw".to_string() })
}

fn stage_max(stage: WaitStage) -> u64 {
    match stage {
        WaitStage::AfterLogin => 30_000,
        WaitStage::BeforeSubmit => 10_000,
        WaitStage::BeforeFirstScoreboard => 10_000,
        WaitStage::BeforeTeamVisits => 10_000,
        WaitStage::AfterSecondScoreboard => 20_000,
    }
}

#[test]
fn assigned_user_starts_fresh_and_counts_accepted_problems() {
    let mut u = user();
    assert_eq!(u.username, "team001");
    assert!(!u.login_completed);
    assert!(u.session_cookie.is_none());
    assert!(!u.all_problems_accepted(1));
    assert!(u.all_problems_accepted(0));
    u.mark_problem_accepted(5);
    u.mark_problem_accepted(5);
    assert_eq!(u.accepted_problem_ids.len(), 1);
    assert!(u.all_problems_accepted(1));
    assert!(u.usable_session_cookie().is_none());
    u.session_cookie = Some(String::new());
    assert!(u.usable_session_cookie().is_none());
    u.session_cookie = Some("PHPSESSID=x".to_string());
    assert_eq!(u.usable_session_cookie(), Some("PHPSESSID=x".to_string()));
}

#[test]
fn login_barrier_opens_when_all_logged_in_and_failure_sticks() {
    let mut g = LoginGate::new(2);
    assert_eq!(g.status(), GateStatus::Waiting);
    assert_eq!(g.mark_login_success(), 1);
    assert_eq!(g.status(), GateStatus::Waiting);
    assert_eq!(g.mark_login_success(), 2);
    assert_eq!(g.status(), GateStatus::Open);
    g.mark_login_failed();
    assert_eq!(g.status(), GateStatus::Failed);
    assert_eq!(g.mark_login_success(), 3);
    assert_eq!(g.status(), GateStatus::Failed);
    assert_eq!(LoginGate::new(0).status(), GateStatus::Open);
}

#[test]
fn load_test_needs_teams_and_problems() {
    let creds = vec![TeamCredential { username: "a".to_string(), password: "b".to_string() }];
    let problems = vec![ContestProblemInfo { id: 1, short_name: "A".to_string() }];
    assert_eq!(check_load_test_inputs(&creds, &problems), Ok(()));
    assert_eq!(check_load_test_inputs(&vec![], &vec![]), Err(LoadTestInitError::NoTeams));
    assert_eq!(check_load_test_inputs(&creds, &vec![]), Err(LoadTestInitError::NoProblems));
}

#[test]
fn solution_candidates_try_cpp_before_c() {
    let c = solution_file_candidates("/s/A", SolutionKind::Ac);
    assert_eq!(c, vec![
        ("AC.cpp".to_string(), "/s/A/AC.cpp".to_string()),
        ("AC.c".to_string(), "/s/A/AC.c".to_string()),
    ]);
    let t = solution_file_candidates("rel/", SolutionKind::Tle);
    assert_eq!(t[0], ("TLE.cpp".to_string(), "rel/TLE.cpp".to_string()));
    assert_eq!(t[1], ("TLE.c".to_string(), "rel/TLE.c".to_string()));
    let info = ContestProblemInfo { id: 3, short_name: "C".to_string() };
    let a = problem_asset(&info, "AC.c".into(), "int main(){}".into(), "TLE.cpp".into(), "loop".into());
    assert_eq!(a.id, 3);
    assert_eq!(a.short_name, "C");
    assert_eq!(a.tle_code, "loop");
}

#[test]
fn unsolved_problems_are_picked_at_random_among_the_unsolved() {
    let ids = vec![10, 20, 30, 20];
    let mut accepted = HashSet::new();
    accepted.insert(20u32);
    assert_eq!(unsolved_problem_positions(&ids, &accepted), vec![0, 2]);
    for _ in 0..200 {
        let p = pick_random_unsolved_problem(&ids, &accepted).unwrap();
        assert!(p == 0 || p == 2);
    }
    accepted.insert(10);
    accepted.insert(30);
    assert_eq!(pick_random_unsolved_problem(&ids, &accepted), None);
}

fn expect_wait(action: FlowAction, stage: WaitStage) {
    match action {
        FlowAction::Wait { millis, stage: s } => {
            assert_eq!(s, stage);
            assert!(millis <= stage_max(stage));
        }
        other => panic!("expected a wait at {:?}, got {:?}", stage, other),
    }
}

/// Runs the visits of `/team` that a round asks for, then returns the next action.
fn run_team_visits(flow: &mut ParticipantFlow, mut action: FlowAction, max: usize) -> FlowAction {
    let mut visits = 0;
    while action == (FlowAction::Visit { page: TeamPage::Team }) {
        visits += 1;
        action = flow.step(FlowEvent::Succeeded);
    }
    assert!(visits <= max);
    action
}

#[test]
fn a_participant_runs_until_every_problem_is_accepted() {
    let mut flow = ParticipantFlow::new(vec![11, 22], user());
    assert_eq!(flow.step(FlowEvent::Begin), FlowAction::Login);
    let a = flow.step(FlowEvent::LoggedIn { session_cookie: Some("PHPSESSID=s".to_string()), login_completed: true });
    expect_wait(a, WaitStage::AfterLogin);
    assert_eq!(flow.user.session_cookie, Some("PHPSESSID=s".to_string()));
    assert_eq!(flow.step(FlowEvent::Succeeded), FlowAction::Visit { page: TeamPage::Team });
    let mut action = flow.step(FlowEvent::Succeeded);
    let mut submitted = Vec::new();
    let mut rounds = 0;
    loop {
        if let FlowAction::Finish { outcome } = action {
            assert_eq!(outcome, FlowOutcome::Completed);
            break;
        }
        rounds += 1;
        assert!(rounds <= 10);
        expect_wait(action, WaitStage::BeforeSubmit);
        let index = match flow.step(FlowEvent::Succeeded) {
            FlowAction::ChooseSolution { problem_index } => problem_index,
            other => panic!("expected a choice, got {:?}", other),
        };
        // The first attempt at each problem runs out of time, the second is accepted.
        let kind = if submitted.contains(&index) { SolutionKind::Ac } else { SolutionKind::Tle };
        assert_eq!(flow.step(FlowEvent::SolutionChosen { kind }), FlowAction::Submit { problem_index: index, kind });
        submitted.push(index);
        assert_eq!(flow.user.last_solution_kind, Some(kind));
        expect_wait(flow.step(FlowEvent::Succeeded), WaitStage::BeforeFirstScoreboard);
        assert_eq!(flow.step(FlowEvent::Succeeded), FlowAction::Visit { page: TeamPage::Scoreboard });
        expect_wait(flow.step(FlowEvent::Succeeded), WaitStage::BeforeTeamVisits);
        let next = flow.step(FlowEvent::Succeeded);
        let next = run_team_visits(&mut flow, next, 10);
        assert_eq!(next, FlowAction::Visit { page: TeamPage::Scoreboard });
        expect_wait(flow.step(FlowEvent::Succeeded), WaitStage::AfterSecondScoreboard);
        let next = flow.step(FlowEvent::Succeeded);
        action = run_team_visits(&mut flow, next, 5);
    }
    assert_eq!(rounds, 4);
    assert_eq!(flow.attempts, 4);
    assert!(flow.user.accepted_problem_ids.contains(&11));
    assert!(flow.user.accepted_problem_ids.contains(&22));
    assert_eq!(flow.step(FlowEvent::Succeeded), FlowAction::Finish { outcome: FlowOutcome::Completed });
}

#[test]
fn a_failed_step_ends_the_run() {
    let mut flow = ParticipantFlow::new(vec![1], user());
    flow.step(FlowEvent::Begin);
    flow.step(FlowEvent::LoggedIn { session_cookie: None, login_completed: true });
    assert_eq!(flow.step(FlowEvent::Failed), FlowAction::Finish { outcome: FlowOutcome::StepFailed });
    assert_eq!(flow.step, FlowStep::Finished { outcome: FlowOutcome::StepFailed });
    assert_eq!(flow.step(FlowEvent::Succeeded), FlowAction::Finish { outcome: FlowOutcome::StepFailed });
}

#[test]
fn a_failed_login_ends_the_run() {
    let mut flow = ParticipantFlow::new(vec![1], user());
    flow.step(FlowEvent::Begin);
    assert_eq!(flow.step(FlowEvent::LoginFailed), FlowAction::Finish { outcome: FlowOutcome::LoginFailed });
}

#[test]
fn an_event_out_of_order_ends_the_run() {
    let mut flow = ParticipantFlow::new(vec![1], user());
    assert_eq!(flow.step(FlowEvent::Succeeded), FlowAction::Finish { outcome: FlowOutcome::UnexpectedEvent });
}

#[test]
fn a_contest_without_problems_completes_at_once() {
    let mut flow = ParticipantFlow::new(vec![], user());
    flow.step(FlowEvent::Begin);
    flow.step(FlowEvent::LoggedIn { session_cookie: None, login_completed: true });
    flow.step(FlowEvent::Succeeded);
    assert_eq!(flow.step(FlowEvent::Succeeded), FlowAction::Finish { outcome: FlowOutcome::Completed });
    assert_eq!(flow.attempts, 0);
}

#[test]
fn the_attempt_limit_stops_the_run() {
    let mut flow = ParticipantFlow::new(vec![1], user());
    flow.step(FlowEvent::Begin);
    flow.step(FlowEvent::LoggedIn { session_cookie: None, login_completed: true });
    flow.step(FlowEvent::Succeeded);
    flow.attempts = MAX_SUBMISSION_ATTEMPTS;
    assert_eq!(
        flow.step(FlowEvent::Succeeded),
        FlowAction::Finish { outcome: FlowOutcome::AttemptLimitReached }
    );
    assert_eq!(flow.attempts, MAX_SUBMISSION_ATTEMPTS + 1);
}

#[test]
fn duplicate_problem_ids_count_once() {
    let mut flow = ParticipantFlow::new(vec![5, 5], user());
    flow.step(FlowEvent::Begin);
    flow.step(FlowEvent::LoggedIn { session_cookie: None, login_completed: true });
    flow.step(FlowEvent::Succeeded);
    expect_wait(flow.step(FlowEvent::Succeeded), WaitStage::BeforeSubmit);
    let index = match flow.step(FlowEvent::Succeeded) {
        FlowAction::ChooseSolution { problem_index } => problem_index,
        other => panic!("expected a choice, got {:?}", other),
    };
    flow.step(FlowEvent::SolutionChosen { kind: SolutionKind::Ac });
    assert!(index < 2);
    flow.step(FlowEvent::Succeeded);
    flow.step(FlowEvent::Succeeded);
    flow.step(FlowEvent::Succeeded);
    let next = flow.step(FlowEvent::Succeeded);
    let next = run_team_visits(&mut flow, next, 10);
    assert_eq!(next, FlowAction::Visit { page: TeamPage::Scoreboard });
    flow.step(FlowEvent::Succeeded);
    let next = flow.step(FlowEvent::Succeeded);
    let next = run_team_visits(&mut flow, next, 5);
    expect_wait(next, WaitStage::BeforeSubmit);
    assert_eq!(flow.step(FlowEvent::Succeeded), FlowAction::Finish { outcome: FlowOutcome::Completed });
}

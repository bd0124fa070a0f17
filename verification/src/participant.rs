use vstd::prelude::*;

use crate::loadtest::{
    AssignedUser, SolutionKind, lemma_unsolved_positions, pick_random_unsolved_problem,
    random_up_to, unsolved_positions,
};

verus! {

broadcast use vstd::std_specs::hash::group_hash_axioms;

/// The number of submission rounds after which a participant gives up.
pub const MAX_SUBMISSION_ATTEMPTS: usize = 20000usize;

/// Which round of random `/team` visits is running: the one of up to ten visits after the
/// first scoreboard, or the one of up to five after the second scoreboard and its pause.
#[derive(Debug, Clone, Copy, PartialEq, Eq)]
pub enum VisitRound {
    First,
    Second,
}

/// How a participant's run ended.
#[derive(Debug, Clone, Copy, PartialEq, Eq)]
pub enum FlowOutcome {
    /// Every problem is accepted (or none is left to pick).
    Completed,
    /// The participant started more submission rounds than allowed.
    AttemptLimitReached,
    /// A request or a wait failed.
    StepFailed,
    /// Logging in or the synchronized start failed.
    LoginFailed,
    /// An event came that the step it reached cannot take.
    UnexpectedEvent,
}

/// Where a participant's run stands: what it last asked for and now awaits.
#[derive(Debug, Clone, Copy, PartialEq, Eq)]
pub enum FlowStep {
    Start,
    LoggingIn,
    WaitingAfterLogin,
    LoadingTeamPage,
    WaitingBeforeSubmit,
    ChoosingSolution { problem_index: usize },
    Submitting { problem_index: usize, kind: SolutionKind },
    WaitingBeforeFirstScoreboard,
    LoadingFirstScoreboard,
    WaitingBeforeTeamVisits,
    VisitingTeam { remaining: usize, round: VisitRound },
    LoadingSecondScoreboard,
    WaitingAfterSecondScoreboard,
    Finished { outcome: FlowOutcome },
}

/// The stage at which a participant pauses.
#[derive(Debug, Clone, Copy, PartialEq, Eq)]
pub enum WaitStage {
    AfterLogin,
    BeforeSubmit,
    BeforeFirstScoreboard,
    BeforeTeamVisits,
    AfterSecondScoreboard,
}

/// A page of the team interface.
#[derive(Debug, Clone, Copy, PartialEq, Eq)]
pub enum TeamPage {
    /// `/team`
    Team,
    /// `/team/scoreboard`
    Scoreboard,
}

/// What happened to what the participant last asked for.
#[derive(Debug)]
pub enum FlowEvent {
    /// The run begins.
    Begin,
    /// Logging in (and the synchronized start) succeeded; the login fields of the
    /// participant's session as they now stand.
    LoggedIn { session_cookie: Option<String>, login_completed: bool },
    /// Logging in (or the synchronized start) failed.
    LoginFailed,
    /// The wait, page visit or submission succeeded.
    Succeeded,
    /// The wait, page visit or submission failed.
    Failed,
    /// The solution to submit was chosen.
    SolutionChosen { kind: SolutionKind },
}

/// What the participant asks for next.
#[derive(Debug, Clone, Copy, PartialEq, Eq)]
pub enum FlowAction {
    /// Log in, unless already logged in, and wait until every participant has.
    Login,
    /// Pause for `millis` milliseconds.
    Wait { millis: u64, stage: WaitStage },
    /// Load a page with the session cookie.
    Visit { page: TeamPage },
    /// Choose which solution of the problem at `problem_index` to submit.
    ChooseSolution { problem_index: usize },
    /// Submit the chosen solution of the problem at `problem_index`.
    Submit { problem_index: usize, kind: SolutionKind },
    /// Stop.
    Finish { outcome: FlowOutcome },
}

/// The random choices one step may take: a pause length, a number of `/team` visits, and
/// the problem to attempt.
#[derive(Debug, Clone, Copy)]
pub struct Draws {
    pub wait_ms: u64,
    pub visits: usize,
    pub pick: Option<usize>,
}

/// One simulated participant's run through the contest: log in, open the team page, then
/// round after round pick an unsolved problem, submit a solution, look at the scoreboard
/// and the team page, until every problem is accepted.
#[derive(Debug)]
pub struct ParticipantFlow {
    pub step: FlowStep,
    pub attempts: usize,
    pub problem_ids: Vec<u32>,
    pub user: AssignedUser,
}

/// The longest pause, in milliseconds, that the step taken from `step` may ask for.
pub open spec fn wait_cap_ms(step: FlowStep) -> u64 {
    match step {
        FlowStep::LoggingIn => 30000,
        FlowStep::LoadingTeamPage => 10000,
        FlowStep::Submitting { .. } => 10000,
        FlowStep::LoadingFirstScoreboard => 10000,
        FlowStep::LoadingSecondScoreboard => 20000,
        FlowStep::VisitingTeam { round: VisitRound::Second, .. } => 10000,
        FlowStep::WaitingAfterSecondScoreboard => 10000,
        _ => 0,
    }
}

/// The most `/team` visits that the step taken from `step` may draw.
pub open spec fn visit_cap(step: FlowStep) -> usize {
    match step {
        FlowStep::WaitingBeforeTeamVisits => 10,
        FlowStep::WaitingAfterSecondScoreboard => 5,
        _ => 0,
    }
}

/// The longest pause, in milliseconds, at each stage.
pub open spec fn stage_max_ms(stage: WaitStage) -> u64 {
    match stage {
        WaitStage::AfterLogin => 30000,
        WaitStage::BeforeSubmit => 10000,
        WaitStage::BeforeFirstScoreboard => 10000,
        WaitStage::BeforeTeamVisits => 10000,
        WaitStage::AfterSecondScoreboard => 20000,
    }
}

/// The draws fit the step: within the caps, and, where a problem is to be picked, the
/// pick is an unsolved problem, or none exactly when none is left.
pub open spec fn draws_fit(f: ParticipantFlow, e: FlowEvent, d: Draws) -> bool {
    &&& d.wait_ms <= wait_cap_ms(f.step)
    &&& d.visits <= visit_cap(f.step)
    &&& (f.step == FlowStep::WaitingBeforeSubmit && e is Succeeded) ==> {
        let u = unsolved_positions(f.problem_ids@, f.user.accepted_problem_ids@);
        &&& (d.pick is None <==> u.len() == 0)
        &&& (d.pick matches Some(i) ==> u.contains(i))
    }
}

impl ParticipantFlow {
    /// The run's invariant: only problem ids are accepted, the attempt count stays within
    /// the limit until the run stops, a problem being chosen or submitted is one not yet
    /// accepted, and a visit round never has more visits left than it may take.
    pub open spec fn wf(self) -> bool {
        &&& self.user.accepted_problem_ids@.subset_of(self.problem_ids@.to_set())
        &&& self.attempts <= MAX_SUBMISSION_ATTEMPTS + 1
        &&& !(self.step is Finished) ==> self.attempts <= MAX_SUBMISSION_ATTEMPTS
        &&& match self.step {
            FlowStep::ChoosingSolution { problem_index } => problem_index < self.problem_ids@.len()
                && !self.user.accepted_problem_ids@.contains(self.problem_ids@[problem_index as int]),
            FlowStep::Submitting { problem_index, .. } => problem_index < self.problem_ids@.len()
                && !self.user.accepted_problem_ids@.contains(self.problem_ids@[problem_index as int]),
            FlowStep::VisitingTeam { remaining, round } => match round {
                VisitRound::First => remaining < 10,
                VisitRound::Second => remaining < 5,
            },
            FlowStep::Finished { outcome: FlowOutcome::Completed } => forall|i: int|
                0 <= i < self.problem_ids@.len() ==> self.user.accepted_problem_ids@.contains(
                    #[trigger] self.problem_ids@[i],
                ),
            FlowStep::Finished { outcome: FlowOutcome::AttemptLimitReached } => self.attempts
                == MAX_SUBMISSION_ATTEMPTS + 1,
            _ => true,
        }
    }
}

/// The step leaves the problems and the participant as they were.
pub open spec fn keeps(pre: ParticipantFlow, post: ParticipantFlow) -> bool {
    &&& post.problem_ids@ == pre.problem_ids@
    &&& post.user == pre.user
}

/// The step moves to `step` and asks for `act`, changing nothing else.
pub open spec fn goes(
    pre: ParticipantFlow,
    post: ParticipantFlow,
    act: FlowAction,
    step: FlowStep,
    action: FlowAction,
) -> bool {
    &&& keeps(pre, post)
    &&& post.attempts == pre.attempts
    &&& post.step == step
    &&& act == action
}

/// The step stops the run with `outcome`.
pub open spec fn finishes(
    pre: ParticipantFlow,
    post: ParticipantFlow,
    act: FlowAction,
    outcome: FlowOutcome,
) -> bool {
    goes(pre, post, act, FlowStep::Finished { outcome }, FlowAction::Finish { outcome })
}

/// The head of a submission round: stop when every problem is accepted, else count the
/// round, stop when the count passes the limit, else pause before submitting.
pub open spec fn round_head(pre: ParticipantFlow, d: Draws, post: ParticipantFlow, act: FlowAction) -> bool {
    if pre.user.accepted_problem_ids@.len() >= pre.problem_ids@.len() {
        finishes(pre, post, act, FlowOutcome::Completed)
    } else {
        &&& keeps(pre, post)
        &&& post.attempts == pre.attempts + 1
        &&& if pre.attempts + 1 > MAX_SUBMISSION_ATTEMPTS {
            &&& post.step == FlowStep::Finished { outcome: FlowOutcome::AttemptLimitReached }
            &&& act == FlowAction::Finish { outcome: FlowOutcome::AttemptLimitReached }
        } else {
            &&& post.step == FlowStep::WaitingBeforeSubmit
            &&& act == FlowAction::Wait { millis: d.wait_ms, stage: WaitStage::BeforeSubmit }
        }
    }
}

/// `count` visits of `/team` in `round`, then what follows the round.
pub open spec fn team_visits(
    pre: ParticipantFlow,
    d: Draws,
    round: VisitRound,
    count: usize,
    post: ParticipantFlow,
    act: FlowAction,
) -> bool {
    if count > 0 {
        goes(
            pre,
            post,
            act,
            FlowStep::VisitingTeam { remaining: (count - 1) as usize, round },
            FlowAction::Visit { page: TeamPage::Team },
        )
    } else {
        match round {
            VisitRound::First => goes(
                pre,
                post,
                act,
                FlowStep::LoadingSecondScoreboard,
                FlowAction::Visit { page: TeamPage::Scoreboard },
            ),
            VisitRound::Second => round_head(pre, d, post, act),
        }
    }
}

/// `post` is `pre` with other login fields.
pub open spec fn login_updated(pre: AssignedUser, post: AssignedUser, cookie: Option<String>, completed: bool) -> bool {
    &&& post.username == pre.username
    &&& post.password == pre.password
    &&& post.accepted_problem_ids@ == pre.accepted_problem_ids@
    &&& post.last_solution_kind == pre.last_solution_kind
    &&& post.session_cookie == cookie
    &&& post.login_completed == completed
}

/// `post` is `pre` with `accepted` as its accepted problems and `kind` as its last choice.
pub open spec fn progress_updated(
    pre: AssignedUser,
    post: AssignedUser,
    accepted: Set<u32>,
    kind: Option<SolutionKind>,
) -> bool {
    &&& post.username == pre.username
    &&& post.password == pre.password
    &&& post.session_cookie == pre.session_cookie
    &&& post.login_completed == pre.login_completed
    &&& post.accepted_problem_ids@ == accepted
    &&& post.last_solution_kind == kind
}

/// One step of a participant's run, with the draws `d`.
pub open spec fn flow_step(
    pre: ParticipantFlow,
    e: FlowEvent,
    d: Draws,
    post: ParticipantFlow,
    act: FlowAction,
) -> bool {
    match pre.step {
        FlowStep::Finished { outcome } => finishes(pre, post, act, outcome),
        _ => match e {
            FlowEvent::Failed => finishes(pre, post, act, FlowOutcome::StepFailed),
            FlowEvent::LoginFailed => if pre.step == FlowStep::LoggingIn {
                finishes(pre, post, act, FlowOutcome::LoginFailed)
            } else {
                finishes(pre, post, act, FlowOutcome::UnexpectedEvent)
            },
            FlowEvent::Begin => if pre.step == FlowStep::Start {
                goes(pre, post, act, FlowStep::LoggingIn, FlowAction::Login)
            } else {
                finishes(pre, post, act, FlowOutcome::UnexpectedEvent)
            },
            FlowEvent::LoggedIn { session_cookie, login_completed } => if pre.step
                == FlowStep::LoggingIn {
                &&& post.problem_ids@ == pre.problem_ids@
                &&& login_updated(pre.user, post.user, session_cookie, login_completed)
                &&& post.attempts == pre.attempts
                &&& post.step == FlowStep::WaitingAfterLogin
                &&& act == FlowAction::Wait { millis: d.wait_ms, stage: WaitStage::AfterLogin }
            } else {
                finishes(pre, post, act, FlowOutcome::UnexpectedEvent)
            },
            FlowEvent::SolutionChosen { kind } => match pre.step {
                FlowStep::ChoosingSolution { problem_index } => {
                    &&& post.problem_ids@ == pre.problem_ids@
                    &&& progress_updated(pre.user, post.user, pre.user.accepted_problem_ids@, Some(kind))
                    &&& post.attempts == pre.attempts
                    &&& post.step == FlowStep::Submitting { problem_index, kind }
                    &&& act == FlowAction::Submit { problem_index, kind }
                },
                _ => finishes(pre, post, act, FlowOutcome::UnexpectedEvent),
            },
            FlowEvent::Succeeded => match pre.step {
                FlowStep::WaitingAfterLogin => goes(
                    pre,
                    post,
                    act,
                    FlowStep::LoadingTeamPage,
                    FlowAction::Visit { page: TeamPage::Team },
                ),
                FlowStep::LoadingTeamPage => round_head(pre, d, post, act),
                FlowStep::WaitingBeforeSubmit => match d.pick {
                    None => finishes(pre, post, act, FlowOutcome::Completed),
                    Some(i) => goes(
                        pre,
                        post,
                        act,
                        FlowStep::ChoosingSolution { problem_index: i },
                        FlowAction::ChooseSolution { problem_index: i },
                    ),
                },
                FlowStep::Submitting { problem_index, kind } => {
                    &&& post.problem_ids@ == pre.problem_ids@
                    &&& progress_updated(
                        pre.user,
                        post.user,
                        if kind == SolutionKind::Ac {
                            pre.user.accepted_problem_ids@.insert(pre.problem_ids@[problem_index as int])
                        } else {
                            pre.user.accepted_problem_ids@
                        },
                        pre.user.last_solution_kind,
                    )
                    &&& post.attempts == pre.attempts
                    &&& post.step == FlowStep::WaitingBeforeFirstScoreboard
                    &&& act == FlowAction::Wait { millis: d.wait_ms, stage: WaitStage::BeforeFirstScoreboard }
                },
                FlowStep::WaitingBeforeFirstScoreboard => goes(
                    pre,
                    post,
                    act,
                    FlowStep::LoadingFirstScoreboard,
                    FlowAction::Visit { page: TeamPage::Scoreboard },
                ),
                FlowStep::LoadingFirstScoreboard => goes(
                    pre,
                    post,
                    act,
                    FlowStep::WaitingBeforeTeamVisits,
                    FlowAction::Wait { millis: d.wait_ms, stage: WaitStage::BeforeTeamVisits },
                ),
                FlowStep::WaitingBeforeTeamVisits => team_visits(pre, d, VisitRound::First, d.visits, post, act),
                FlowStep::VisitingTeam { remaining, round } => team_visits(pre, d, round, remaining, post, act),
                FlowStep::LoadingSecondScoreboard => goes(
                    pre,
                    post,
                    act,
                    FlowStep::WaitingAfterSecondScoreboard,
                    FlowAction::Wait { millis: d.wait_ms, stage: WaitStage::AfterSecondScoreboard },
                ),
                FlowStep::WaitingAfterSecondScoreboard => team_visits(pre, d, VisitRound::Second, d.visits, post, act),
                _ => finishes(pre, post, act, FlowOutcome::UnexpectedEvent),
            },
        },
    }
}


/// Every problem id is accepted.
pub open spec fn all_accepted(f: ParticipantFlow) -> bool {
    forall|i: int| 0 <= i < f.problem_ids@.len() ==> f.user.accepted_problem_ids@.contains(#[trigger] f.problem_ids@[i])
}

/// Where only problem ids are accepted and at least as many ids are accepted as there are
/// problems, every problem id is accepted.
proof fn lemma_count_means_all(ids: Seq<u32>, accepted: Set<u32>)
    requires
        accepted.subset_of(ids.to_set()),
        accepted.len() >= ids.len(),
    ensures
        forall|i: int| 0 <= i < ids.len() ==> accepted.contains(#[trigger] ids[i]),
{
    broadcast use vstd::seq_lib::seq_to_set_is_finite;
    ids.lemma_cardinality_of_set();
    vstd::set_lib::lemma_len_subset(accepted, ids.to_set());
    vstd::set_lib::lemma_subset_equality(accepted, ids.to_set());
    assert forall|i: int| 0 <= i < ids.len() implies accepted.contains(#[trigger] ids[i]) by {
        assert(ids.contains(ids[i]));
        assert(ids.to_set().contains(ids[i]));
    }
}

pub fn wait_cap_of(step: &FlowStep) -> (cap: u64)
    ensures
        cap == wait_cap_ms(*step),
{
    match step {
        FlowStep::LoggingIn => 30000,
        FlowStep::LoadingTeamPage => 10000,
        FlowStep::Submitting { .. } => 10000,
        FlowStep::LoadingFirstScoreboard => 10000,
        FlowStep::LoadingSecondScoreboard => 20000,
        FlowStep::VisitingTeam { round: VisitRound::Second, .. } => 10000,
        FlowStep::WaitingAfterSecondScoreboard => 10000,
        _ => 0,
    }
}

pub fn visit_cap_of(step: &FlowStep) -> (cap: usize)
    ensures
        cap == visit_cap(*step),
{
    match step {
        FlowStep::WaitingBeforeTeamVisits => 10,
        FlowStep::WaitingAfterSecondScoreboard => 5,
        _ => 0,
    }
}

impl ParticipantFlow {
    /// A run for `user` over the problems with ids `problem_ids`, not yet begun.
    pub fn new(problem_ids: Vec<u32>, user: AssignedUser) -> (f: ParticipantFlow)
        requires
            user.accepted_problem_ids@.subset_of(problem_ids@.to_set()),
        ensures
            f.step == FlowStep::Start,
            f.attempts == 0,
            f.problem_ids == problem_ids,
            f.user == user,
            f.wf(),
    {
        ParticipantFlow { step: FlowStep::Start, attempts: 0, problem_ids, user }
    }

    fn finish(&mut self, outcome: FlowOutcome) -> (act: FlowAction)
        requires
            old(self).wf(),
            outcome == FlowOutcome::Completed ==> all_accepted(*old(self)),
            outcome != FlowOutcome::AttemptLimitReached,
        ensures
            finishes(*old(self), *final(self), act, outcome),
            final(self).wf(),
    {
        self.step = FlowStep::Finished { outcome };
        FlowAction::Finish { outcome }
    }

    fn round_head(&mut self, d: &Draws) -> (act: FlowAction)
        requires
            old(self).wf(),
            !(old(self).step is Finished),
        ensures
            round_head(*old(self), *d, *final(self), act),
            final(self).wf(),
    {
        if self.user.all_problems_accepted(self.problem_ids.len()) {
            proof {
                lemma_count_means_all(self.problem_ids@, self.user.accepted_problem_ids@);
            }
            return self.finish(FlowOutcome::Completed);
        }
        self.attempts = self.attempts + 1;
        if self.attempts > MAX_SUBMISSION_ATTEMPTS {
            self.step = FlowStep::Finished { outcome: FlowOutcome::AttemptLimitReached };
            return FlowAction::Finish { outcome: FlowOutcome::AttemptLimitReached };
        }
        self.step = FlowStep::WaitingBeforeSubmit;
        FlowAction::Wait { millis: d.wait_ms, stage: WaitStage::BeforeSubmit }
    }

    fn team_visits(&mut self, d: &Draws, round: VisitRound, count: usize) -> (act: FlowAction)
        requires
            old(self).wf(),
            !(old(self).step is Finished),
            match round {
                VisitRound::First => count <= 10,
                VisitRound::Second => count <= 5,
            },
        ensures
            team_visits(*old(self), *d, round, count, *final(self), act),
            final(self).wf(),
    {
        if count > 0 {
            self.step = FlowStep::VisitingTeam { remaining: count - 1, round };
            return FlowAction::Visit { page: TeamPage::Team };
        }
        match round {
            VisitRound::First => {
                self.step = FlowStep::LoadingSecondScoreboard;
                FlowAction::Visit { page: TeamPage::Scoreboard }
            },
            VisitRound::Second => self.round_head(d),
        }
    }

    /// One step of the run, with the draws `d` already made.
    pub fn advance(&mut self, event: FlowEvent, d: Draws) -> (act: FlowAction)
        requires
            old(self).wf(),
            draws_fit(*old(self), event, d),
        ensures
            final(self).wf(),
            flow_step(*old(self), event, d, *final(self), act),
    {
        let ghost ids = self.problem_ids@;
        proof {
            let n = self.problem_ids.len();
            lemma_unsolved_positions(ids, self.user.accepted_problem_ids@);
        }
        match self.step {
            FlowStep::Finished { outcome } => {
                return FlowAction::Finish { outcome };
            },
            _ => {},
        }
        match event {
            FlowEvent::Failed => self.finish(FlowOutcome::StepFailed),
            FlowEvent::LoginFailed => match self.step {
                FlowStep::LoggingIn => self.finish(FlowOutcome::LoginFailed),
                _ => self.finish(FlowOutcome::UnexpectedEvent),
            },
            FlowEvent::Begin => match self.step {
                FlowStep::Start => {
                    self.step = FlowStep::LoggingIn;
                    FlowAction::Login
                },
                _ => self.finish(FlowOutcome::UnexpectedEvent),
            },
            FlowEvent::LoggedIn { session_cookie, login_completed } => match self.step {
                FlowStep::LoggingIn => {
                    self.user.session_cookie = session_cookie;
                    self.user.login_completed = login_completed;
                    self.step = FlowStep::WaitingAfterLogin;
                    FlowAction::Wait { millis: d.wait_ms, stage: WaitStage::AfterLogin }
                },
                _ => self.finish(FlowOutcome::UnexpectedEvent),
            },
            FlowEvent::SolutionChosen { kind } => match self.step {
                FlowStep::ChoosingSolution { problem_index } => {
                    self.user.last_solution_kind = Some(kind);
                    self.step = FlowStep::Submitting { problem_index, kind };
                    FlowAction::Submit { problem_index, kind }
                },
                _ => self.finish(FlowOutcome::UnexpectedEvent),
            },
            FlowEvent::Succeeded => match self.step {
                FlowStep::WaitingAfterLogin => {
                    self.step = FlowStep::LoadingTeamPage;
                    FlowAction::Visit { page: TeamPage::Team }
                },
                FlowStep::LoadingTeamPage => self.round_head(&d),
                FlowStep::WaitingBeforeSubmit => match d.pick {
                    None => {
                        proof {
                            assert forall|i: int| 0 <= i < ids.len() implies self.user.accepted_problem_ids@.contains(
                                #[trigger] ids[i],
                            ) by {
                                if !self.user.accepted_problem_ids@.contains(ids[i]) {
                                    let k = choose|k: int|
                                        0 <= k < unsolved_positions(ids, self.user.accepted_problem_ids@).len()
                                            && #[trigger] unsolved_positions(ids, self.user.accepted_problem_ids@)[k]
                                            == i;
                                }
                            }
                        }
                        self.finish(FlowOutcome::Completed)
                    },
                    Some(i) => {
                        proof {
                            let u = unsolved_positions(ids, self.user.accepted_problem_ids@);
                            let k = choose|k: int| 0 <= k < u.len() && u[k] == i;
                            assert(u[k] < ids.len());
                        }
                        self.step = FlowStep::ChoosingSolution { problem_index: i };
                        FlowAction::ChooseSolution { problem_index: i }
                    },
                },
                FlowStep::Submitting { problem_index, kind } => {
                    match kind {
                        SolutionKind::Ac => {
                            let id = self.problem_ids[problem_index];
                            proof {
                                assert(ids.contains(ids[problem_index as int]));
                            }
                            self.user.mark_problem_accepted(id);
                        },
                        SolutionKind::Tle => {},
                    }
                    self.step = FlowStep::WaitingBeforeFirstScoreboard;
                    FlowAction::Wait { millis: d.wait_ms, stage: WaitStage::BeforeFirstScoreboard }
                },
                FlowStep::WaitingBeforeFirstScoreboard => {
                    self.step = FlowStep::LoadingFirstScoreboard;
                    FlowAction::Visit { page: TeamPage::Scoreboard }
                },
                FlowStep::LoadingFirstScoreboard => {
                    self.step = FlowStep::WaitingBeforeTeamVisits;
                    FlowAction::Wait { millis: d.wait_ms, stage: WaitStage::BeforeTeamVisits }
                },
                FlowStep::WaitingBeforeTeamVisits => self.team_visits(&d, VisitRound::First, d.visits),
                FlowStep::VisitingTeam { remaining, round } => self.team_visits(&d, round, remaining),
                FlowStep::LoadingSecondScoreboard => {
                    self.step = FlowStep::WaitingAfterSecondScoreboard;
                    FlowAction::Wait { millis: d.wait_ms, stage: WaitStage::AfterSecondScoreboard }
                },
                FlowStep::WaitingAfterSecondScoreboard => self.team_visits(&d, VisitRound::Second, d.visits),
                _ => self.finish(FlowOutcome::UnexpectedEvent),
            },
        }
    }

    /// One step of the run: draws what the step needs (a pause of up to the stage's
    /// maximum, a number of `/team` visits, an unsolved problem) and takes it. Whatever
    /// was drawn, the step is the one `flow_step` gives for some fitting draws.
    pub fn step(&mut self, event: FlowEvent) -> (act: FlowAction)
        requires
            old(self).wf(),
        ensures
            final(self).wf(),
            exists|d: Draws| #[trigger] draws_fit(*old(self), event, d) && flow_step(*old(self), event, d, *final(self), act),
            step_laws(*old(self), *final(self), act),
    {
        let ghost pre = *self;
        let drawing = match &event {
            FlowEvent::Succeeded => true,
            FlowEvent::LoggedIn { .. } => true,
            _ => false,
        };
        let wait_cap = wait_cap_of(&self.step);
        let wait_ms = if drawing && wait_cap > 0 {
            random_up_to(wait_cap)
        } else {
            0
        };
        let visits_cap = visit_cap_of(&self.step);
        let visits = if drawing && visits_cap > 0 {
            random_up_to(visits_cap as u64) as usize
        } else {
            0
        };
        let pick = match (&self.step, &event) {
            (FlowStep::WaitingBeforeSubmit, FlowEvent::Succeeded) => pick_random_unsolved_problem(
                &self.problem_ids,
                &self.user.accepted_problem_ids,
            ),
            _ => None,
        };
        let d = Draws { wait_ms, visits, pick };
        assert(draws_fit(pre, event, d));
        let act = self.advance(event, d);
        proof {
            law_participant_step(pre, event, d, *self, act);
        }
        act
    }
}

/// Law: the random `/team` visits follow the draw. From the pause before the first round
/// of visits (after the first scoreboard), a draw of `n` visits asks for a `/team` visit
/// with `n - 1` left when `n > 0`, and for the second scoreboard only when `n == 0`; each
/// visit of a round asks for one more while some are left and ends the round when none
/// are: the first round with the second scoreboard, the second round with no further
/// `/team` visit. After the pause following the second scoreboard, a draw of `n > 0`
/// likewise starts the second round with `n - 1` left. So a round makes exactly the drawn
/// number of `/team` visits.
pub proof fn law_team_visits_follow_the_draw(pre: ParticipantFlow, d: Draws, post: ParticipantFlow, act: FlowAction)
    requires
        flow_step(pre, FlowEvent::Succeeded, d, post, act),
    ensures
        pre.step == FlowStep::WaitingBeforeTeamVisits ==> if d.visits > 0 {
            act == FlowAction::Visit { page: TeamPage::Team } && post.step == (FlowStep::VisitingTeam {
                remaining: (d.visits - 1) as usize,
                round: VisitRound::First,
            })
        } else {
            act == FlowAction::Visit { page: TeamPage::Scoreboard } && post.step == FlowStep::LoadingSecondScoreboard
        },
        pre.step == FlowStep::WaitingAfterSecondScoreboard ==> if d.visits > 0 {
            act == FlowAction::Visit { page: TeamPage::Team } && post.step == (FlowStep::VisitingTeam {
                remaining: (d.visits - 1) as usize,
                round: VisitRound::Second,
            })
        } else {
            act != FlowAction::Visit { page: TeamPage::Team }
        },
        pre.step matches FlowStep::VisitingTeam { remaining, round } ==> if remaining > 0 {
            act == FlowAction::Visit { page: TeamPage::Team } && post.step == (FlowStep::VisitingTeam {
                remaining: (remaining - 1) as usize,
                round,
            })
        } else {
            match round {
                VisitRound::First => act == FlowAction::Visit { page: TeamPage::Scoreboard } && post.step
                    == FlowStep::LoadingSecondScoreboard,
                VisitRound::Second => act != FlowAction::Visit { page: TeamPage::Team },
            }
        },
{
}

/// Law: when a submission succeeds, an accepted (`AC`) solution marks exactly its problem
/// as accepted, and a wrong (`TLE`) one leaves the accepted problems as they were.
pub proof fn law_only_accepted_solutions_count(pre: ParticipantFlow, d: Draws, post: ParticipantFlow, act: FlowAction)
    requires
        flow_step(pre, FlowEvent::Succeeded, d, post, act),
    ensures
        pre.step matches FlowStep::Submitting { problem_index, kind } ==> post.user.accepted_problem_ids@ == if kind
            == SolutionKind::Ac {
            pre.user.accepted_problem_ids@.insert(pre.problem_ids@[problem_index as int])
        } else {
            pre.user.accepted_problem_ids@
        },
{
}

/// The laws every step of a run keeps.
pub open spec fn step_laws(pre: ParticipantFlow, post: ParticipantFlow, act: FlowAction) -> bool {
    &&& post.problem_ids@ == pre.problem_ids@
    &&& pre.user.accepted_problem_ids@.subset_of(post.user.accepted_problem_ids@)
    &&& pre.attempts <= post.attempts <= MAX_SUBMISSION_ATTEMPTS + 1
    &&& (pre.step is Finished ==> post.step == pre.step)
    &&& (act matches FlowAction::Submit { problem_index, .. } ==> problem_index < pre.problem_ids@.len()
        && !pre.user.accepted_problem_ids@.contains(pre.problem_ids@[problem_index as int]))
    &&& (act matches FlowAction::ChooseSolution { problem_index } ==> problem_index < pre.problem_ids@.len()
        && !pre.user.accepted_problem_ids@.contains(pre.problem_ids@[problem_index as int]))
    &&& (act matches FlowAction::Wait { millis, stage } ==> millis <= stage_max_ms(stage))
    &&& (act matches FlowAction::Finish { outcome } ==> post.step == FlowStep::Finished { outcome })
    &&& (act == FlowAction::Finish { outcome: FlowOutcome::Completed } ==> all_accepted(post))
    &&& (act == FlowAction::Finish { outcome: FlowOutcome::AttemptLimitReached }
        ==> post.attempts == MAX_SUBMISSION_ATTEMPTS + 1)
}

/// Law: every step of a well-formed run keeps the problems, never forgets an accepted
/// problem, only counts attempts up (and never past the limit by more than the one that
/// stops the run), stays stopped once stopped, only chooses and submits problems not yet
/// accepted, pauses no longer than the stage allows, and reports completion only when
/// every problem is accepted.
pub proof fn law_participant_step(
    pre: ParticipantFlow,
    e: FlowEvent,
    d: Draws,
    post: ParticipantFlow,
    act: FlowAction,
)
    requires
        pre.wf(),
        post.wf(),
        draws_fit(pre, e, d),
        flow_step(pre, e, d, post, act),
    ensures
        step_laws(pre, post, act),
{
    if act == (FlowAction::Finish { outcome: FlowOutcome::Completed }) {
        assert(post.step == FlowStep::Finished { outcome: FlowOutcome::Completed });
    }
    assert(post.problem_ids@ == pre.problem_ids@);
    assert(pre.user.accepted_problem_ids@.subset_of(post.user.accepted_problem_ids@));
    assert(pre.attempts <= post.attempts <= MAX_SUBMISSION_ATTEMPTS + 1);
    assert(pre.step is Finished ==> post.step == pre.step);
    assert(act matches FlowAction::Submit { problem_index, .. } ==> problem_index < pre.problem_ids@.len()
        && !pre.user.accepted_problem_ids@.contains(pre.problem_ids@[problem_index as int]));
    assert(act matches FlowAction::ChooseSolution { problem_index } ==> problem_index < pre.problem_ids@.len()
        && !pre.user.accepted_problem_ids@.contains(pre.problem_ids@[problem_index as int]));
    assert(act matches FlowAction::Wait { millis, stage } ==> millis <= stage_max_ms(stage));
    assert(act matches FlowAction::Finish { outcome } ==> post.step == FlowStep::Finished { outcome });
    assert(act == FlowAction::Finish { outcome: FlowOutcome::AttemptLimitReached }
        ==> post.attempts == MAX_SUBMISSION_ATTEMPTS + 1);
}

} // verus!

use onyx::loadtest::{AssignedUser, ContestProblemAsset, SolutionKind};
use onyx::models::TeamCredential;
use onyx::submission::{
    extract_submit_csrf_token, submission_language, SubmissionFlow, SubmitAction, SubmitEvent,
    SubmitFailure, SubmitOutcome, SubmitStep,
};

fn logged_in_user(cookie: Option<&str>) -> AssignedUser {
    let mut u = AssignedUser::new(&TeamCredential { username: "team001".to_string(), password: "pw".to_string() });
    u.login_completed = true;
    u.session_cookie = cookie.map(str::to_string);
    u
}

fn problem() -> ContestProblemAsset {
    ContestProblemAsset {
        id: 7,
        short_name: "A".to_string(),
        ac_filename: "AC.cpp".to_string(),
        ac_code: "int main(){}".to_string(),
        tle_filename: "TLE.c".to_string(),
        tle_code: "int main(){for(;;);}".to_string(),
    }
}

fn submit_page() -> String {
    "<input type=\"hidden\" id=\"submit_problem__token\" name=\"submit_problem[_token]\" value=\"s3cr3t\" />"
        .to_string()
}

fn outcome(act: &SubmitAction) -> Option<SubmitOutcome> {
    match act {
        SubmitAction::Finish { outcome } => Some(outcome.clone()),
        _ => None,
    }
}

#[test]
fn submit_token_is_read_after_its_id() {
    assert_eq!(extract_submit_csrf_token(&submit_page()), Some("s3cr3t".to_string()));
    let empty = "<input id=\"submit_problem__token\" name=\"submit_problem[_token]\" value=\"\">";
    assert_eq!(extract_submit_csrf_token(empty), Some(String::new()));
}

#[test]
fn submit_token_needs_id_name_and_closing_quote() {
    assert_eq!(extract_submit_csrf_token("<input name=\"submit_problem[_token]\" value=\"x\">"), None);
    assert_eq!(extract_submit_csrf_token("<input id=\"submit_problem__token\" value=\"x\">"), None);
    assert_eq!(
        extract_submit_csrf_token("<input id=\"submit_problem__token\" name=\"submit_problem[_token]\" value=\"x"),
        None
    );
    assert_eq!(extract_submit_csrf_token("<input id=\"submit_problem__token\" name=\"submit_problem[_token]\">"), None);
}

#[test]
fn language_follows_the_file_extension() {
    assert_eq!(submission_language("AC.c"), "c");
    assert_eq!(submission_language("TLE.C"), "c");
    assert_eq!(submission_language("AC.cpp"), "cpp");
    assert_eq!(submission_language("c"), "cpp");
    assert_eq!(submission_language(""), "cpp");
}

#[test]
fn submission_of_wrong_solution_goes_through() {
    let u = logged_in_user(Some("PHPSESSID=abc"));
    let mut flow = SubmissionFlow::new(&u, &problem(), SolutionKind::Tle);
    assert_eq!(flow.source_filename, "TLE.c");
    match flow.step(SubmitEvent::Begin) {
        SubmitAction::FetchSubmitPage { cookie_header } => assert_eq!(cookie_header, "PHPSESSID=abc"),
        other => panic!("unexpected action {other:?}"),
    }
    assert!(matches!(flow.step(SubmitEvent::Page { status: 200 }), SubmitAction::ReadSubmitPageBody));
    match flow.step(SubmitEvent::Body { html: submit_page() }) {
        SubmitAction::PostSubmission { cookie_header, form } => {
            assert_eq!(cookie_header, "PHPSESSID=abc");
            assert_eq!(form.problem_id, 7);
            assert_eq!(form.language, "c");
            assert_eq!(form.token, "s3cr3t");
            assert_eq!(form.source_filename, "TLE.c");
            assert_eq!(form.source_code, "int main(){for(;;);}");
        }
        other => panic!("unexpected action {other:?}"),
    }
    assert_eq!(outcome(&flow.step(SubmitEvent::Reply { status: 302 })), Some(SubmitOutcome::Submitted));
    assert_eq!(flow.step, SubmitStep::Done);
}

#[test]
fn accepted_solution_is_sent_as_cpp() {
    let u = logged_in_user(Some("PHPSESSID=abc"));
    let mut flow = SubmissionFlow::new(&u, &problem(), SolutionKind::Ac);
    flow.step(SubmitEvent::Begin);
    flow.step(SubmitEvent::Page { status: 200 });
    match flow.step(SubmitEvent::Body { html: submit_page() }) {
        SubmitAction::PostSubmission { form, .. } => {
            assert_eq!(form.language, "cpp");
            assert_eq!(form.source_filename, "AC.cpp");
        }
        other => panic!("unexpected action {other:?}"),
    }
    assert_eq!(outcome(&flow.step(SubmitEvent::Reply { status: 200 })), Some(SubmitOutcome::Submitted));
}

#[test]
fn submission_without_session_cookie_fails() {
    for cookie in [None, Some("")] {
        let u = logged_in_user(cookie);
        let mut flow = SubmissionFlow::new(&u, &problem(), SolutionKind::Ac);
        assert_eq!(
            outcome(&flow.step(SubmitEvent::Begin)),
            Some(SubmitOutcome::Failed { failure: SubmitFailure::MissingSessionCookie })
        );
    }
}

#[test]
fn rejected_pages_and_replies_are_reported() {
    let u = logged_in_user(Some("PHPSESSID=abc"));
    let mut flow = SubmissionFlow::new(&u, &problem(), SolutionKind::Ac);
    flow.step(SubmitEvent::Begin);
    assert_eq!(outcome(&flow.step(SubmitEvent::Page { status: 403 })), Some(SubmitOutcome::SubmitPageRejected));

    let mut flow = SubmissionFlow::new(&u, &problem(), SolutionKind::Ac);
    flow.step(SubmitEvent::Begin);
    flow.step(SubmitEvent::Page { status: 200 });
    assert_eq!(
        outcome(&flow.step(SubmitEvent::Body { html: "<form></form>".to_string() })),
        Some(SubmitOutcome::Failed { failure: SubmitFailure::MissingToken })
    );

    let mut flow = SubmissionFlow::new(&u, &problem(), SolutionKind::Ac);
    flow.step(SubmitEvent::Begin);
    flow.step(SubmitEvent::Page { status: 200 });
    flow.step(SubmitEvent::Body { html: submit_page() });
    assert_eq!(outcome(&flow.step(SubmitEvent::Reply { status: 500 })), Some(SubmitOutcome::SubmissionRejected));
}

#[test]
fn transport_failures_name_their_stage() {
    let u = logged_in_user(Some("PHPSESSID=abc"));
    let mut flow = SubmissionFlow::new(&u, &problem(), SolutionKind::Ac);
    flow.step(SubmitEvent::Begin);
    assert_eq!(
        outcome(&flow.step(SubmitEvent::Failed { error: "refused".to_string() })),
        Some(SubmitOutcome::Failed { failure: SubmitFailure::SubmitPageTransport { error: "refused".to_string() } })
    );

    let mut flow = SubmissionFlow::new(&u, &problem(), SolutionKind::Ac);
    flow.step(SubmitEvent::Begin);
    flow.step(SubmitEvent::Page { status: 200 });
    assert_eq!(
        outcome(&flow.step(SubmitEvent::Failed { error: "eof".to_string() })),
        Some(SubmitOutcome::Failed { failure: SubmitFailure::SubmitPageUnreadable { error: "eof".to_string() } })
    );

    let mut flow = SubmissionFlow::new(&u, &problem(), SolutionKind::Ac);
    flow.step(SubmitEvent::Begin);
    flow.step(SubmitEvent::Page { status: 200 });
    flow.step(SubmitEvent::Body { html: submit_page() });
    assert_eq!(
        outcome(&flow.step(SubmitEvent::Failed { error: "reset".to_string() })),
        Some(SubmitOutcome::Failed { failure: SubmitFailure::PostTransport { error: "reset".to_string() } })
    );
    assert_eq!(
        outcome(&flow.step(SubmitEvent::Begin)),
        Some(SubmitOutcome::Failed { failure: SubmitFailure::OutOfOrder })
    );
    let mut flow = SubmissionFlow::new(&u, &problem(), SolutionKind::Ac);
    flow.step(SubmitEvent::Begin);
    assert_eq!(outcome(&flow.step(SubmitEvent::Aborted)), Some(SubmitOutcome::Aborted));
}

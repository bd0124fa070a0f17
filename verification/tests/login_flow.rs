use onyx::loadtest::AssignedUser;
use onyx::login::{LoginAction, LoginEvent, LoginFailure, LoginFlow, LoginOutcome, LoginStep};
use onyx::models::TeamCredential;

fn user() -> AssignedUser {
    AssignedUser::new(&TeamCredential { username: "team001".to_string(), password: "0d000721".to_string() })
}

fn login_page_html() -> String {
    "<form><input type=\"hidden\" name=\"_csrf_token\" value=\"tok123\"></form>".to_string()
}

fn finished(act: &LoginAction) -> Option<LoginOutcome> {
    match act {
        LoginAction::Finish { outcome } => Some(outcome.clone()),
        _ => None,
    }
}

fn failure(act: &LoginAction) -> Option<LoginFailure> {
    match finished(act) {
        Some(LoginOutcome::Failed { failure }) => Some(failure),
        _ => None,
    }
}

/// Drives a fresh flow up to the login form's reply.
fn flow_at_reply(page_cookies: Vec<Option<String>>) -> LoginFlow {
    let mut flow = LoginFlow::new(&user());
    assert!(matches!(flow.step(LoginEvent::Begin), LoginAction::FetchLoginPage));
    assert!(matches!(
        flow.step(LoginEvent::Page { status: 200, set_cookies: page_cookies }),
        LoginAction::ReadLoginPageBody
    ));
    match flow.step(LoginEvent::Body { html: login_page_html() }) {
        LoginAction::PostLogin { .. } => {}
        other => panic!("unexpected action {other:?}"),
    }
    flow
}

#[test]
fn login_with_redirect_merges_cookies_and_waits_for_everyone() {
    let mut flow = LoginFlow::new(&user());
    assert!(flow.needs_login);
    assert!(matches!(flow.step(LoginEvent::Begin), LoginAction::FetchLoginPage));
    let page = LoginEvent::Page {
        status: 200,
        set_cookies: vec![Some("PHPSESSID=abc; path=/; HttpOnly".to_string())],
    };
    assert!(matches!(flow.step(page), LoginAction::ReadLoginPageBody));
    assert_eq!(flow.page_cookies, vec!["PHPSESSID=abc".to_string()]);
    match flow.step(LoginEvent::Body { html: login_page_html() }) {
        LoginAction::PostLogin { username, password, csrf_token, cookie_header } => {
            assert_eq!(username, "team001");
            assert_eq!(password, "0d000721");
            assert_eq!(csrf_token, "tok123");
            assert_eq!(cookie_header, "PHPSESSID=abc");
        }
        other => panic!("unexpected action {other:?}"),
    }
    let reply = LoginEvent::LoginReply {
        status: 302,
        set_cookies: vec![Some("PHPSESSID=def; path=/".to_string())],
        url: "http://judge.example/login".to_string(),
        location: Some("/team".to_string()),
    };
    match flow.step(reply) {
        LoginAction::FollowRedirect { url, cookie_header } => {
            assert_eq!(url, "http://judge.example/team");
            assert_eq!(cookie_header, "PHPSESSID=def");
        }
        other => panic!("unexpected action {other:?}"),
    }
    let redirected = LoginEvent::Page { status: 200, set_cookies: vec![Some("REMEMBERME=1; path=/".to_string())] };
    match flow.step(redirected) {
        LoginAction::RecordLogin { session_cookie } => {
            assert_eq!(session_cookie, "PHPSESSID=def; REMEMBERME=1");
        }
        other => panic!("unexpected action {other:?}"),
    }
    assert!(matches!(flow.step(LoginEvent::Recorded), LoginAction::AwaitAllLogins));
    assert_eq!(finished(&flow.step(LoginEvent::GateOpen)), Some(LoginOutcome::Synced));
    assert_eq!(flow.step, LoginStep::Done);
}

#[test]
fn login_without_redirect_records_the_merged_cookie() {
    let mut flow = flow_at_reply(vec![Some("b=2".to_string()), Some("PHPSESSID=abc".to_string())]);
    let reply = LoginEvent::LoginReply {
        status: 200,
        set_cookies: vec![Some("a=1; Secure".to_string())],
        url: "http://judge.example/login".to_string(),
        location: None,
    };
    match flow.step(reply) {
        LoginAction::RecordLogin { session_cookie } => {
            assert_eq!(session_cookie, "PHPSESSID=abc; a=1; b=2");
        }
        other => panic!("unexpected action {other:?}"),
    }
}

#[test]
fn later_cookie_value_replaces_earlier_one() {
    let mut flow = flow_at_reply(vec![Some("PHPSESSID=old".to_string())]);
    let reply = LoginEvent::LoginReply {
        status: 204,
        set_cookies: vec![Some("PHPSESSID=new".to_string())],
        url: "http://judge.example/login".to_string(),
        location: None,
    };
    match flow.step(reply) {
        LoginAction::RecordLogin { session_cookie } => assert_eq!(session_cookie, "PHPSESSID=new"),
        other => panic!("unexpected action {other:?}"),
    }
}

#[test]
fn session_cookie_name_matches_ignoring_ascii_case() {
    let mut flow = flow_at_reply(vec![]);
    let reply = LoginEvent::LoginReply {
        status: 200,
        set_cookies: vec![Some("phpsessid=xyz".to_string())],
        url: "http://judge.example/login".to_string(),
        location: None,
    };
    assert!(matches!(flow.step(reply), LoginAction::RecordLogin { .. }));
}

#[test]
fn already_logged_in_user_only_waits() {
    let mut u = user();
    u.login_completed = true;
    let mut flow = LoginFlow::new(&u);
    assert!(!flow.needs_login);
    assert!(matches!(flow.step(LoginEvent::Begin), LoginAction::AwaitAllLogins));
    assert_eq!(
        failure(&flow.step(LoginEvent::GateFailed { error: "a participant login failed".to_string() })),
        Some(LoginFailure::GateFailed { error: "a participant login failed".to_string() })
    );
}

#[test]
fn login_page_with_error_status_is_rejected() {
    let mut flow = LoginFlow::new(&user());
    flow.step(LoginEvent::Begin);
    let act = flow.step(LoginEvent::Page { status: 500, set_cookies: vec![] });
    assert_eq!(finished(&act), Some(LoginOutcome::LoginPageRejected));
}

#[test]
fn login_page_without_token_fails() {
    let mut flow = LoginFlow::new(&user());
    flow.step(LoginEvent::Begin);
    flow.step(LoginEvent::Page { status: 200, set_cookies: vec![] });
    let act = flow.step(LoginEvent::Body { html: "<form></form>".to_string() });
    assert_eq!(failure(&act), Some(LoginFailure::MissingCsrfToken));
}

#[test]
fn transport_errors_and_aborts_end_the_login() {
    let mut flow = LoginFlow::new(&user());
    flow.step(LoginEvent::Begin);
    let act = flow.step(LoginEvent::Failed { error: "connection refused".to_string() });
    assert_eq!(failure(&act), Some(LoginFailure::Transport { error: "connection refused".to_string() }));

    let mut flow = flow_at_reply(vec![]);
    assert_eq!(finished(&flow.step(LoginEvent::Aborted)), Some(LoginOutcome::Aborted));
}

#[test]
fn unexpected_login_status_fails() {
    let mut flow = flow_at_reply(vec![Some("PHPSESSID=abc".to_string())]);
    let reply = LoginEvent::LoginReply {
        status: 403,
        set_cookies: vec![],
        url: "http://judge.example/login".to_string(),
        location: None,
    };
    assert_eq!(failure(&flow.step(reply)), Some(LoginFailure::UnexpectedLoginStatus));
}

#[test]
fn redirect_without_location_fails() {
    let mut flow = flow_at_reply(vec![Some("PHPSESSID=abc".to_string())]);
    let reply = LoginEvent::LoginReply {
        status: 302,
        set_cookies: vec![],
        url: "http://judge.example/login".to_string(),
        location: None,
    };
    assert_eq!(failure(&flow.step(reply)), Some(LoginFailure::MissingRedirectLocation));
}

#[test]
fn redirect_that_does_not_resolve_fails() {
    let mut flow = flow_at_reply(vec![Some("PHPSESSID=abc".to_string())]);
    let reply = LoginEvent::LoginReply {
        status: 303,
        set_cookies: vec![],
        url: "not a url".to_string(),
        location: Some("/team".to_string()),
    };
    assert!(matches!(failure(&flow.step(reply)), Some(LoginFailure::BadRedirectUrl { .. })));
}

#[test]
fn failed_redirect_keeps_the_cookie_from_the_form_reply() {
    let mut flow = flow_at_reply(vec![]);
    let reply = LoginEvent::LoginReply {
        status: 302,
        set_cookies: vec![Some("PHPSESSID=abc".to_string())],
        url: "https://judge.example/domjudge/login".to_string(),
        location: Some("team".to_string()),
    };
    match flow.step(reply) {
        LoginAction::FollowRedirect { url, .. } => assert_eq!(url, "https://judge.example/domjudge/team"),
        other => panic!("unexpected action {other:?}"),
    }
    match flow.step(LoginEvent::Failed { error: "timeout".to_string() }) {
        LoginAction::RecordLogin { session_cookie } => assert_eq!(session_cookie, "PHPSESSID=abc"),
        other => panic!("unexpected action {other:?}"),
    }
}

#[test]
fn replies_without_cookies_fail() {
    let mut flow = flow_at_reply(vec![None]);
    let reply = LoginEvent::LoginReply {
        status: 200,
        set_cookies: vec![None, Some("  ; path=/".to_string())],
        url: "http://judge.example/login".to_string(),
        location: None,
    };
    assert_eq!(failure(&flow.step(reply)), Some(LoginFailure::NoSessionCookie));

    let mut flow = flow_at_reply(vec![Some("other=1".to_string())]);
    let reply = LoginEvent::LoginReply {
        status: 200,
        set_cookies: vec![],
        url: "http://judge.example/login".to_string(),
        location: None,
    };
    assert_eq!(failure(&flow.step(reply)), Some(LoginFailure::NoPhpSessionCookie));
}

#[test]
fn missing_session_and_out_of_order_events_fail() {
    let mut flow = flow_at_reply(vec![Some("PHPSESSID=abc".to_string())]);
    let reply = LoginEvent::LoginReply {
        status: 200,
        set_cookies: vec![],
        url: "http://judge.example/login".to_string(),
        location: None,
    };
    assert!(matches!(flow.step(reply), LoginAction::RecordLogin { .. }));
    assert_eq!(failure(&flow.step(LoginEvent::SessionMissing)), Some(LoginFailure::MissingSession));
    assert_eq!(failure(&flow.step(LoginEvent::GateOpen)), Some(LoginFailure::OutOfOrder));

    let mut flow = LoginFlow::new(&user());
    assert_eq!(failure(&flow.step(LoginEvent::Recorded)), Some(LoginFailure::OutOfOrder));
}

#[test]
fn resolved_redirect_is_followed_or_ends_the_login() {
    let mut flow = LoginFlow::new(&user());
    flow.session_cookie = "PHPSESSID=abc".to_string();
    match flow.follow_resolved_redirect(Ok("http://judge.example/team".to_string())) {
        LoginAction::FollowRedirect { url, cookie_header } => {
            assert_eq!(url, "http://judge.example/team");
            assert_eq!(cookie_header, "PHPSESSID=abc");
        }
        other => panic!("unexpected action {other:?}"),
    }
    assert_eq!(flow.step, LoginStep::AwaitingRedirect);
    let act = flow.follow_resolved_redirect(Err("relative URL without a base".to_string()));
    assert_eq!(failure(&act), Some(LoginFailure::BadRedirectUrl { error: "relative URL without a base".to_string() }));
    assert_eq!(flow.step, LoginStep::Done);
}

use vstd::prelude::*;
use vstd::string::*;

use crate::cookies::{
    contains_cookie_name, cookie_header, cookie_header_pairs, cookie_pairs_of_headers,
    extract_cookie_pairs, extract_csrf_token, format_cookie_header, header_has_cookie,
    is_cookie_listing, login_csrf_token, merge_cookie_pairs, merged_cookies, opt_views,
    parse_cookie_header_pairs, law_later_cookies_override,
};
use crate::http::{
    is_redirection, is_success, resolve_redirect_url, status_is_redirection, status_is_success,
    url_join,
};
use crate::loadtest::AssignedUser;
use crate::text::views;

verus! {

/// Where a participant's login stands: what it last asked for and now awaits.
#[derive(Debug, Clone, Copy, PartialEq, Eq)]
pub enum LoginStep {
    Start,
    AwaitingLoginPage,
    AwaitingLoginPageBody,
    AwaitingLoginReply,
    AwaitingRedirect,
    AwaitingRecord,
    AwaitingGate,
    Done,
}

/// Why a login failed; each failure marks the login barrier failed and ends the participant.
#[derive(Debug, Clone, PartialEq, Eq)]
pub enum LoginFailure {
    /// A request could not be made or its reply not read; the error's text.
    Transport { error: String },
    /// The login page holds no `_csrf_token` field.
    MissingCsrfToken,
    /// The login form was answered neither with success nor with a redirect.
    UnexpectedLoginStatus,
    /// The login form was answered with a redirect that has no `Location`.
    MissingRedirectLocation,
    /// The redirect's `Location` does not resolve against the URL that answered.
    BadRedirectUrl { error: String },
    /// The replies set no cookie at all.
    NoSessionCookie,
    /// The replies set no `PHPSESSID` cookie.
    NoPhpSessionCookie,
    /// The participant's session data went missing.
    MissingSession,
    /// Waiting for every participant's login failed; the error's text.
    GateFailed { error: String },
    /// An event came that the step it reached cannot take.
    OutOfOrder,
}

/// How a login ended.
#[derive(Debug, Clone, PartialEq, Eq)]
pub enum LoginOutcome {
    /// Logged in (now or before), and every participant has logged in.
    Synced,
    /// The harness reported an error of its own; it is passed on as it is.
    Aborted,
    /// The login page answered with a status that is not a success: the request is
    /// recorded as failed.
    LoginPageRejected,
    /// The login failed.
    Failed { failure: LoginFailure },
}

/// What happened to what the login last asked for.
#[derive(Debug)]
pub enum LoginEvent {
    /// The login begins.
    Begin,
    /// The harness reported an error of its own.
    Aborted,
    /// The request failed or its reply could not be read; the error's text.
    Failed { error: String },
    /// A page answered: its status and its `Set-Cookie` header values (`None` where a
    /// value is not visible ASCII text).
    Page { status: u16, set_cookies: Vec<Option<String>> },
    /// The login page's text.
    Body { html: String },
    /// The login form was answered: status, `Set-Cookie` values, the URL that answered,
    /// and the `Location` header where it is text.
    LoginReply { status: u16, set_cookies: Vec<Option<String>>, url: String, location: Option<String> },
    /// The session cookie was stored in the participant's session and the login counted.
    Recorded,
    /// The participant's session data went missing.
    SessionMissing,
    /// Every participant has logged in.
    GateOpen,
    /// Waiting for every participant failed; the error's text.
    GateFailed { error: String },
}

/// What the login asks for next.
#[derive(Debug)]
pub enum LoginAction {
    /// `GET /login`.
    FetchLoginPage,
    /// Read the login page's text.
    ReadLoginPageBody,
    /// `POST /login` as a multipart form, without following redirects, sending the
    /// `Cookie` header where it is not empty.
    PostLogin { username: String, password: String, csrf_token: String, cookie_header: String },
    /// `GET` the redirect target with the session cookie.
    FollowRedirect { url: String, cookie_header: String },
    /// Store the session cookie in the participant's session, mark it logged in, and count
    /// the login at the login barrier.
    RecordLogin { session_cookie: String },
    /// Wait until every participant has logged in.
    AwaitAllLogins,
    /// Stop.
    Finish { outcome: LoginOutcome },
}

/// One participant's login, and then its wait for every other participant's.
#[derive(Debug)]
pub struct LoginFlow {
    pub step: LoginStep,
    pub username: String,
    pub password: String,
    pub needs_login: bool,
    pub page_cookies: Vec<String>,
    pub session_cookie: String,
}

/// The name of the cookie that carries the session.
pub open spec fn session_cookie_name() -> Seq<char> {
    "PHPSESSID"@
}

/// The step keeps who logs in and whether a login is needed.
pub open spec fn keeps_identity(pre: LoginFlow, post: LoginFlow) -> bool {
    &&& post.username == pre.username
    &&& post.password == pre.password
    &&& post.needs_login == pre.needs_login
}

/// The step keeps everything but the step.
pub open spec fn keeps_all(pre: LoginFlow, post: LoginFlow) -> bool {
    &&& keeps_identity(pre, post)
    &&& views(post.page_cookies@) == views(pre.page_cookies@)
    &&& post.session_cookie@ == pre.session_cookie@
}

/// The step moves to `step` and asks for `action`, changing nothing else.
pub open spec fn moves(pre: LoginFlow, post: LoginFlow, step: LoginStep) -> bool {
    keeps_all(pre, post) && post.step == step
}

/// The step stops the login with `outcome`.
pub open spec fn ends(pre: LoginFlow, post: LoginFlow, act: LoginAction, outcome: LoginOutcome) -> bool {
    &&& moves(pre, post, LoginStep::Done)
    &&& act == LoginAction::Finish { outcome }
}

/// The last checks on the session cookie `s`: it must not be empty and must hold a
/// `PHPSESSID` pair; then it is recorded.
pub open spec fn session_checks(post: LoginFlow, act: LoginAction, s: Seq<char>) -> bool {
    if s.len() == 0 {
        post.step == LoginStep::Done && act == LoginAction::Finish {
            outcome: LoginOutcome::Failed { failure: LoginFailure::NoSessionCookie },
        }
    } else if !header_has_cookie(s, session_cookie_name()) {
        post.step == LoginStep::Done && act == LoginAction::Finish {
            outcome: LoginOutcome::Failed { failure: LoginFailure::NoPhpSessionCookie },
        }
    } else {
        &&& post.step == LoginStep::AwaitingRecord
        &&& act matches LoginAction::RecordLogin { session_cookie }
        &&& session_cookie@ == s
    }
}

/// The `Cookie` header value that lists the jar `m`.
pub open spec fn lists_jar(header: Seq<char>, m: Map<Seq<char>, Seq<char>>) -> bool {
    exists|l: Seq<Seq<char>>| #[trigger] is_cookie_listing(l, m) && header == cookie_header(l)
}

/// One step of a login.
pub open spec fn login_step(pre: LoginFlow, e: LoginEvent, post: LoginFlow, act: LoginAction) -> bool {
    match pre.step {
        LoginStep::Start => match e {
            LoginEvent::Begin => if pre.needs_login {
                moves(pre, post, LoginStep::AwaitingLoginPage) && act == LoginAction::FetchLoginPage
            } else {
                moves(pre, post, LoginStep::AwaitingGate) && act == LoginAction::AwaitAllLogins
            },
            _ => ends(pre, post, act, LoginOutcome::Failed { failure: LoginFailure::OutOfOrder }),
        },
        LoginStep::AwaitingLoginPage => match e {
            LoginEvent::Aborted => ends(pre, post, act, LoginOutcome::Aborted),
            LoginEvent::Failed { error } => ends(
                pre,
                post,
                act,
                LoginOutcome::Failed { failure: LoginFailure::Transport { error } },
            ),
            LoginEvent::Page { status, set_cookies } => if !is_success(status) {
                ends(pre, post, act, LoginOutcome::LoginPageRejected)
            } else {
                &&& keeps_identity(pre, post)
                &&& views(post.page_cookies@) == cookie_pairs_of_headers(opt_views(set_cookies@))
                &&& post.session_cookie@ == pre.session_cookie@
                &&& post.step == LoginStep::AwaitingLoginPageBody
                &&& act == LoginAction::ReadLoginPageBody
            },
            _ => ends(pre, post, act, LoginOutcome::Failed { failure: LoginFailure::OutOfOrder }),
        },
        LoginStep::AwaitingLoginPageBody => match e {
            LoginEvent::Aborted => ends(pre, post, act, LoginOutcome::Aborted),
            LoginEvent::Failed { error } => ends(
                pre,
                post,
                act,
                LoginOutcome::Failed { failure: LoginFailure::Transport { error } },
            ),
            LoginEvent::Body { html } => match login_csrf_token(html@) {
                None => ends(
                    pre,
                    post,
                    act,
                    LoginOutcome::Failed { failure: LoginFailure::MissingCsrfToken },
                ),
                Some(t) => {
                    &&& moves(pre, post, LoginStep::AwaitingLoginReply)
                    &&& act matches LoginAction::PostLogin { username, password, csrf_token, cookie_header: ch }
                    &&& username@ == pre.username@
                    &&& password@ == pre.password@
                    &&& csrf_token@ == t
                    &&& ch@ == cookie_header(views(pre.page_cookies@))
                },
            },
            _ => ends(pre, post, act, LoginOutcome::Failed { failure: LoginFailure::OutOfOrder }),
        },
        LoginStep::AwaitingLoginReply => match e {
            LoginEvent::Aborted => ends(pre, post, act, LoginOutcome::Aborted),
            LoginEvent::Failed { error } => ends(
                pre,
                post,
                act,
                LoginOutcome::Failed { failure: LoginFailure::Transport { error } },
            ),
            LoginEvent::LoginReply { status, set_cookies, url, location } => if !is_success(status)
                && !is_redirection(status) {
                ends(pre, post, act, LoginOutcome::Failed { failure: LoginFailure::UnexpectedLoginStatus })
            } else {
                &&& keeps_identity(pre, post)
                &&& views(post.page_cookies@) == views(pre.page_cookies@)
                &&& lists_jar(
                    post.session_cookie@,
                    merged_cookies(
                        views(pre.page_cookies@) + cookie_pairs_of_headers(opt_views(set_cookies@)),
                    ),
                )
                &&& if is_redirection(status) {
                    match location {
                        None => post.step == LoginStep::Done && act == LoginAction::Finish {
                            outcome: LoginOutcome::Failed { failure: LoginFailure::MissingRedirectLocation },
                        },
                        Some(loc) => match url_join(url@, loc@) {
                            None => post.step == LoginStep::Done && act matches LoginAction::Finish {
                                outcome: LoginOutcome::Failed { failure: LoginFailure::BadRedirectUrl { .. } },
                            },
                            Some(target) => {
                                &&& post.step == LoginStep::AwaitingRedirect
                                &&& act matches LoginAction::FollowRedirect { url: u, cookie_header: ch }
                                &&& u@ == target
                                &&& ch@ == post.session_cookie@
                            },
                        },
                    }
                } else {
                    session_checks(post, act, post.session_cookie@)
                }
            },
            _ => ends(pre, post, act, LoginOutcome::Failed { failure: LoginFailure::OutOfOrder }),
        },
        LoginStep::AwaitingRedirect => match e {
            LoginEvent::Aborted => ends(pre, post, act, LoginOutcome::Aborted),
            LoginEvent::Failed { .. } => {
                &&& keeps_all(pre, post)
                &&& session_checks(post, act, post.session_cookie@)
            },
            LoginEvent::Page { set_cookies, .. } => {
                &&& keeps_identity(pre, post)
                &&& views(post.page_cookies@) == views(pre.page_cookies@)
                &&& lists_jar(
                    post.session_cookie@,
                    merged_cookies(
                        cookie_header_pairs(pre.session_cookie@) + cookie_pairs_of_headers(
                            opt_views(set_cookies@),
                        ),
                    ),
                )
                &&& session_checks(post, act, post.session_cookie@)
            },
            _ => ends(pre, post, act, LoginOutcome::Failed { failure: LoginFailure::OutOfOrder }),
        },
        LoginStep::AwaitingRecord => match e {
            LoginEvent::Recorded => moves(pre, post, LoginStep::AwaitingGate) && act
                == LoginAction::AwaitAllLogins,
            LoginEvent::SessionMissing => ends(
                pre,
                post,
                act,
                LoginOutcome::Failed { failure: LoginFailure::MissingSession },
            ),
            LoginEvent::Aborted => ends(pre, post, act, LoginOutcome::Aborted),
            _ => ends(pre, post, act, LoginOutcome::Failed { failure: LoginFailure::OutOfOrder }),
        },
        LoginStep::AwaitingGate => match e {
            LoginEvent::GateOpen => ends(pre, post, act, LoginOutcome::Synced),
            LoginEvent::GateFailed { error } => ends(
                pre,
                post,
                act,
                LoginOutcome::Failed { failure: LoginFailure::GateFailed { error } },
            ),
            LoginEvent::Aborted => ends(pre, post, act, LoginOutcome::Aborted),
            _ => ends(pre, post, act, LoginOutcome::Failed { failure: LoginFailure::OutOfOrder }),
        },
        LoginStep::Done => ends(pre, post, act, LoginOutcome::Failed { failure: LoginFailure::OutOfOrder }),
    }
}


/// Law: once the login form is answered with success or a redirect, the session cookie
/// lists the login page's cookies overridden by the reply's: every cookie the reply sets
/// carries the reply's value, and the page's other cookies keep theirs.
pub proof fn law_login_reply_cookies_override(pre: LoginFlow, e: LoginEvent, post: LoginFlow, act: LoginAction)
    requires
        pre.step == LoginStep::AwaitingLoginReply,
        login_step(pre, e, post, act),
    ensures
        e matches LoginEvent::LoginReply { status, set_cookies, .. } ==> (is_success(status) || is_redirection(
            status,
        )) ==> lists_jar(
            post.session_cookie@,
            merged_cookies(views(pre.page_cookies@)).union_prefer_right(
                merged_cookies(cookie_pairs_of_headers(opt_views(set_cookies@))),
            ),
        ),
{
    if let LoginEvent::LoginReply { status, set_cookies, .. } = e {
        law_later_cookies_override(views(pre.page_cookies@), cookie_pairs_of_headers(opt_views(set_cookies@)));
    }
}

/// Law: after the redirect that follows the login form, the session cookie lists the
/// session's cookies overridden by the cookies the redirect's reply sets: a session id that
/// the redirect's reply sets replaces the earlier one, and the other cookies keep their
/// values. The cookie that is then recorded is that session cookie.
pub proof fn law_redirect_cookies_override(pre: LoginFlow, e: LoginEvent, post: LoginFlow, act: LoginAction)
    requires
        pre.step == LoginStep::AwaitingRedirect,
        login_step(pre, e, post, act),
    ensures
        e matches LoginEvent::Page { set_cookies, .. } ==> {
            &&& lists_jar(
                post.session_cookie@,
                merged_cookies(cookie_header_pairs(pre.session_cookie@)).union_prefer_right(
                    merged_cookies(cookie_pairs_of_headers(opt_views(set_cookies@))),
                ),
            )
            &&& (act matches LoginAction::RecordLogin { session_cookie } ==> session_cookie@ == post.session_cookie@)
        },
{
    if let LoginEvent::Page { set_cookies, .. } = e {
        law_later_cookies_override(
            cookie_header_pairs(pre.session_cookie@),
            cookie_pairs_of_headers(opt_views(set_cookies@)),
        );
    }
}

/// Law: a participant that has already logged in only waits for the others: its login
/// begins by waiting at the login barrier, without fetching the login page; one that has
/// not begins by fetching it.
pub proof fn law_logged_in_user_only_waits(pre: LoginFlow, post: LoginFlow, act: LoginAction)
    requires
        pre.step == LoginStep::Start,
        login_step(pre, LoginEvent::Begin, post, act),
    ensures
        !pre.needs_login ==> act == LoginAction::AwaitAllLogins && post.step == LoginStep::AwaitingGate,
        pre.needs_login ==> act == LoginAction::FetchLoginPage,
{
}

/// Copies of the strings.
pub fn clone_strings(v: &Vec<String>) -> (r: Vec<String>)
    ensures
        views(r@) == views(v@),
{
    let mut out: Vec<String> = Vec::new();
    let mut i: usize = 0;
    while i < v.len()
        invariant
            i <= v@.len(),
            out@.len() == i,
            forall|k: int| 0 <= k < i ==> #[trigger] out@[k]@ == v@[k]@,
        decreases v@.len() - i,
    {
        out.push(v[i].clone());
        i = i + 1;
    }
    assert(views(out@) =~= views(v@));
    out
}

impl LoginFlow {
    /// The login of `user`: needed only where the user has not logged in yet.
    pub fn new(user: &AssignedUser) -> (f: LoginFlow)
        ensures
            f.step == LoginStep::Start,
            f.username == user.username,
            f.password == user.password,
            f.needs_login == !user.login_completed,
            f.page_cookies@.len() == 0,
            f.session_cookie@.len() == 0,
    {
        LoginFlow {
            step: LoginStep::Start,
            username: user.username.clone(),
            password: user.password.clone(),
            needs_login: !user.login_completed,
            page_cookies: Vec::new(),
            session_cookie: String::new(),
        }
    }

    fn end(&mut self, outcome: LoginOutcome) -> (act: LoginAction)
        ensures
            ends(*old(self), *final(self), act, outcome),
    {
        self.step = LoginStep::Done;
        LoginAction::Finish { outcome }
    }

    fn out_of_order(&mut self) -> (act: LoginAction)
        ensures
            ends(
                *old(self),
                *final(self),
                act,
                LoginOutcome::Failed { failure: LoginFailure::OutOfOrder },
            ),
    {
        self.end(LoginOutcome::Failed { failure: LoginFailure::OutOfOrder })
    }

    fn check_session(&mut self) -> (act: LoginAction)
        ensures
            keeps_all(*old(self), *final(self)),
            session_checks(*final(self), act, final(self).session_cookie@),
    {
        if self.session_cookie.as_str().unicode_len() == 0 {
            self.step = LoginStep::Done;
            return LoginAction::Finish {
                outcome: LoginOutcome::Failed { failure: LoginFailure::NoSessionCookie },
            };
        }
        let name = "PHPSESSID";
        if !contains_cookie_name(self.session_cookie.as_str(), name) {
            self.step = LoginStep::Done;
            return LoginAction::Finish {
                outcome: LoginOutcome::Failed { failure: LoginFailure::NoPhpSessionCookie },
            };
        }
        self.step = LoginStep::AwaitingRecord;
        LoginAction::RecordLogin { session_cookie: self.session_cookie.clone() }
    }

    /// Goes on from a redirect of the login form, given its target as resolved against
    /// the URL that answered, or the error of resolving it: the target is fetched with the
    /// session cookie, and an error ends the login.
    pub fn follow_resolved_redirect(&mut self, resolved: Result<String, String>) -> (act: LoginAction)
        ensures
            keeps_all(*old(self), *final(self)),
            match resolved {
                Ok(target) => {
                    &&& final(self).step == LoginStep::AwaitingRedirect
                    &&& act matches LoginAction::FollowRedirect { url, cookie_header }
                    &&& url@ == target@
                    &&& cookie_header@ == old(self).session_cookie@
                },
                Err(error) => {
                    &&& final(self).step == LoginStep::Done
                    &&& act == LoginAction::Finish {
                        outcome: LoginOutcome::Failed { failure: LoginFailure::BadRedirectUrl { error } },
                    }
                },
            },
    {
        match resolved {
            Err(error) => {
                self.step = LoginStep::Done;
                LoginAction::Finish { outcome: LoginOutcome::Failed { failure: LoginFailure::BadRedirectUrl { error } } }
            },
            Ok(target) => {
                self.step = LoginStep::AwaitingRedirect;
                LoginAction::FollowRedirect { url: target, cookie_header: self.session_cookie.clone() }
            },
        }
    }

    /// One step of the login.
    pub fn step(&mut self, event: LoginEvent) -> (act: LoginAction)
        ensures
            login_step(*old(self), event, *final(self), act),
            act matches LoginAction::RecordLogin { session_cookie } ==> session_cookie@.len() > 0
                && header_has_cookie(session_cookie@, session_cookie_name()),
            act matches LoginAction::PostLogin { username, password, .. } ==> username@ == old(self).username@
                && password@ == old(self).password@,
            act == (LoginAction::Finish { outcome: LoginOutcome::Synced }) ==> old(self).step
                == LoginStep::AwaitingGate,
    {
        match self.step {
            LoginStep::Start => match event {
                LoginEvent::Begin => {
                    if self.needs_login {
                        self.step = LoginStep::AwaitingLoginPage;
                        LoginAction::FetchLoginPage
                    } else {
                        self.step = LoginStep::AwaitingGate;
                        LoginAction::AwaitAllLogins
                    }
                },
                _ => self.out_of_order(),
            },
            LoginStep::AwaitingLoginPage => match event {
                LoginEvent::Aborted => self.end(LoginOutcome::Aborted),
                LoginEvent::Failed { error } => self.end(
                    LoginOutcome::Failed { failure: LoginFailure::Transport { error } },
                ),
                LoginEvent::Page { status, set_cookies } => {
                    if !status_is_success(status) {
                        return self.end(LoginOutcome::LoginPageRejected);
                    }
                    self.page_cookies = extract_cookie_pairs(&set_cookies);
                    self.step = LoginStep::AwaitingLoginPageBody;
                    LoginAction::ReadLoginPageBody
                },
                _ => self.out_of_order(),
            },
            LoginStep::AwaitingLoginPageBody => match event {
                LoginEvent::Aborted => self.end(LoginOutcome::Aborted),
                LoginEvent::Failed { error } => self.end(
                    LoginOutcome::Failed { failure: LoginFailure::Transport { error } },
                ),
                LoginEvent::Body { html } => match extract_csrf_token(html.as_str()) {
                    None => self.end(LoginOutcome::Failed { failure: LoginFailure::MissingCsrfToken }),
                    Some(token) => {
                        let cookie_header = format_cookie_header(clone_strings(&self.page_cookies));
                        self.step = LoginStep::AwaitingLoginReply;
                        LoginAction::PostLogin {
                            username: self.username.clone(),
                            password: self.password.clone(),
                            csrf_token: token,
                            cookie_header,
                        }
                    },
                },
                _ => self.out_of_order(),
            },
            LoginStep::AwaitingLoginReply => match event {
                LoginEvent::Aborted => self.end(LoginOutcome::Aborted),
                LoginEvent::Failed { error } => self.end(
                    LoginOutcome::Failed { failure: LoginFailure::Transport { error } },
                ),
                LoginEvent::LoginReply { status, set_cookies, url, location } => {
                    let success = status_is_success(status);
                    let redirection = status_is_redirection(status);
                    if !success && !redirection {
                        return self.end(
                            LoginOutcome::Failed { failure: LoginFailure::UnexpectedLoginStatus },
                        );
                    }
                    let submit_cookies = extract_cookie_pairs(&set_cookies);
                    let merged = merge_cookie_pairs(clone_strings(&self.page_cookies), submit_cookies);
                    let ghost listing = views(merged@);
                    self.session_cookie = format_cookie_header(merged);
                    assert(is_cookie_listing(
                        listing,
                        merged_cookies(
                            views(self.page_cookies@) + cookie_pairs_of_headers(opt_views(set_cookies@)),
                        ),
                    ));
                    if redirection {
                        match location {
                            None => {
                                self.step = LoginStep::Done;
                                LoginAction::Finish {
                                    outcome: LoginOutcome::Failed {
                                        failure: LoginFailure::MissingRedirectLocation,
                                    },
                                }
                            },
                            Some(loc) => {
                                let resolved = resolve_redirect_url(url.as_str(), loc.as_str());
                                self.follow_resolved_redirect(resolved)
                            },
                        }
                    } else {
                        self.check_session()
                    }
                },
                _ => self.out_of_order(),
            },
            LoginStep::AwaitingRedirect => match event {
                LoginEvent::Aborted => self.end(LoginOutcome::Aborted),
                LoginEvent::Failed { .. } => self.check_session(),
                LoginEvent::Page { set_cookies, .. } => {
                    let redirect_cookies = extract_cookie_pairs(&set_cookies);
                    let current = parse_cookie_header_pairs(self.session_cookie.as_str());
                    let merged = merge_cookie_pairs(current, redirect_cookies);
                    let ghost listing = views(merged@);
                    let ghost prior = self.session_cookie@;
                    self.session_cookie = format_cookie_header(merged);
                    assert(is_cookie_listing(
                        listing,
                        merged_cookies(
                            cookie_header_pairs(prior) + cookie_pairs_of_headers(opt_views(set_cookies@)),
                        ),
                    ));
                    self.check_session()
                },
                _ => self.out_of_order(),
            },
            LoginStep::AwaitingRecord => match event {
                LoginEvent::Recorded => {
                    self.step = LoginStep::AwaitingGate;
                    LoginAction::AwaitAllLogins
                },
                LoginEvent::SessionMissing => self.end(
                    LoginOutcome::Failed { failure: LoginFailure::MissingSession },
                ),
                LoginEvent::Aborted => self.end(LoginOutcome::Aborted),
                _ => self.out_of_order(),
            },
            LoginStep::AwaitingGate => match event {
                LoginEvent::GateOpen => self.end(LoginOutcome::Synced),
                LoginEvent::GateFailed { error } => self.end(
                    LoginOutcome::Failed { failure: LoginFailure::GateFailed { error } },
                ),
                LoginEvent::Aborted => self.end(LoginOutcome::Aborted),
                _ => self.out_of_order(),
            },
            LoginStep::Done => self.out_of_order(),
        }
    }
}

} // verus!

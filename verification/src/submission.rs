use vstd::prelude::*;
use vstd::string::*;

use crate::cookies::{quoted_until, value_prefix};
use crate::http::{is_redirection, is_success, status_is_redirection, status_is_success};
use crate::loadtest::{AssignedUser, ContestProblemAsset, SolutionKind};
use crate::text::{
    chars_of, ends_with_ignore_ascii_case, ends_with_ignore_ascii_case_str, find_chars, find_from, occurs_at,
    lemma_find_char_from, lemma_find_from_first,
};

verus! {

/// The marker of the submit form's token field.
pub open spec fn submit_token_id() -> Seq<char> {
    "id=\"submit_problem__token\""@
}

/// The name that the submit form's token field must carry.
pub open spec fn submit_token_name() -> Seq<char> {
    "name=\"submit_problem[_token]\""@
}

/// The token of the submit page: after the first `id="submit_problem__token"`, provided
/// `name="submit_problem[_token]"` follows somewhere, the first `value="` and from there
/// up to the next `"`.
pub open spec fn submit_csrf_token(html: Seq<char>) -> Option<Seq<char>> {
    match find_from(html, submit_token_id(), 0) {
        None => None,
        Some(id) => if find_from(html, submit_token_name(), id) is None {
            None
        } else {
            match find_from(html, value_prefix(), id) {
                None => None,
                Some(v) => {
                    let start = v + value_prefix().len();
                    match find_from(html, seq!['"'], start) {
                        None => None,
                        Some(e) => Some(html.subrange(start, e)),
                    }
                },
            }
        },
    }
}

/// Law: a token read from the submit page lies in the page's first token field: the page
/// holds `id="submit_problem__token"` first at `i`, the first `value="` at or after `i` is at
/// `v`, and the token is the text after that `value="` up to the next `"`, which it does
/// not contain. Nothing before the token field's marker can become the token.
pub proof fn law_submit_token_follows_its_field(html: Seq<char>)
    ensures
        submit_csrf_token(html) matches Some(t) ==> exists|i: int, v: int|
            #![trigger occurs_at(html, submit_token_id(), i), occurs_at(html, value_prefix(), v)]
            {
                &&& occurs_at(html, submit_token_id(), i)
                &&& (forall|j: int| 0 <= j < i ==> !#[trigger] occurs_at(html, submit_token_id(), j))
                &&& (exists|n: int| i <= n && #[trigger] occurs_at(html, submit_token_name(), n))
                &&& i <= v
                &&& occurs_at(html, value_prefix(), v)
                &&& (forall|j: int| i <= j < v ==> !#[trigger] occurs_at(html, value_prefix(), j))
                &&& html.subrange(v + value_prefix().len(), v + value_prefix().len() + t.len()) == t
                &&& v + value_prefix().len() + t.len() < html.len()
                &&& html[v + value_prefix().len() + t.len()] == '"'
                &&& !t.contains('"')
            },
{
    lemma_find_from_first(html, submit_token_id(), 0);
    if let Some(i) = find_from(html, submit_token_id(), 0) {
        lemma_find_from_first(html, submit_token_name(), i);
        if find_from(html, submit_token_name(), i) is Some {
            lemma_find_from_first(html, value_prefix(), i);
            if let Some(v) = find_from(html, value_prefix(), i) {
                let start = v + value_prefix().len();
                assert(start >= 0);
                lemma_find_char_from(html, '"', start);
                if let Some(e) = find_from(html, seq!['"'], start) {
                    let t = html.subrange(start, e);
                    assert(submit_csrf_token(html) == Some(t));
                    assert(!t.contains('"')) by {
                        assert forall|x: int| 0 <= x < t.len() implies t[x] != '"' by {
                            assert(t[x] == html[start + x]);
                        }
                    }
                    assert(occurs_at(html, submit_token_id(), i));
                    assert(occurs_at(html, value_prefix(), v));
                }
            }
        }
    }
}

/// Law: a page holds a token wherever it has the token field's id, then (at or after it)
/// the field's name, a `value="` and, after that, a closing `"`.
pub proof fn law_submit_token_found(html: Seq<char>, i: int, n: int, v: int, q: int)
    requires
        occurs_at(html, submit_token_id(), i),
        i <= n,
        occurs_at(html, submit_token_name(), n),
        i <= v,
        occurs_at(html, value_prefix(), v),
        v + value_prefix().len() <= q < html.len(),
        html[q] == '"',
    ensures
        submit_csrf_token(html) is Some,
{
    lemma_find_from_first(html, submit_token_id(), 0);
    let i0 = find_from(html, submit_token_id(), 0)->0;
    assert(i0 <= i);
    lemma_find_from_first(html, submit_token_name(), i0);
    lemma_find_from_first(html, value_prefix(), i0);
    let v0 = find_from(html, value_prefix(), i0)->0;
    assert(v0 <= v);
    lemma_find_char_from(html, '"', v0 + value_prefix().len());
}

/// The token of the submit page, if the page holds one.
pub fn extract_submit_csrf_token(html: &str) -> (token: Option<String>)
    ensures
        match submit_csrf_token(html@) {
            Some(t) => token is Some && token->0@ == t,
            None => token is None,
        },
{
    let chars = chars_of(html);
    let id_marker = chars_of("id=\"submit_problem__token\"");
    let name_marker = chars_of("name=\"submit_problem[_token]\"");
    let prefix = chars_of("value=\"");
    let id_pos = match find_chars(&chars, &id_marker, 0) {
        Some(i) => i,
        None => return None,
    };
    if find_chars(&chars, &name_marker, id_pos).is_none() {
        return None;
    }
    let value_pos = match find_chars(&chars, &prefix, id_pos) {
        Some(i) => i,
        None => return None,
    };
    proof {
        crate::text::lemma_find_from_bounds(html@, prefix@, id_pos as int);
    }
    let n = chars.len();
    assert(value_pos + prefix@.len() <= n);
    let token_start = value_pos + prefix.len();
    quoted_until(html, &chars, token_start)
}

/// The language a source file is submitted as: `c` where its name ends in `.c` (ASCII
/// case aside), else `cpp`.
pub open spec fn language_of(filename: Seq<char>) -> Seq<char> {
    if ends_with_ignore_ascii_case(filename, seq!['.', 'c']) {
        seq!['c']
    } else {
        seq!['c', 'p', 'p']
    }
}

/// Law: a C source (`.c`, in either case) is submitted as `c` and a C++ source (`.cpp`) as
/// `cpp`, whatever the file name before the extension.
pub proof fn law_language_follows_extension(stem: Seq<char>)
    ensures
        language_of(stem + seq!['.', 'c']) == seq!['c'],
        language_of(stem + seq!['.', 'C']) == seq!['c'],
        language_of(stem + seq!['.', 'c', 'p', 'p']) == seq!['c', 'p', 'p'],
{
    let a = stem + seq!['.', 'c'];
    assert(a.subrange(a.len() - 2, a.len() as int) =~= seq!['.', 'c']);
    let b = stem + seq!['.', 'C'];
    assert(b.subrange(b.len() - 2, b.len() as int) =~= seq!['.', 'C']);
    assert(crate::text::ascii_lower('C') == crate::text::ascii_lower('c'));
    let c = stem + seq!['.', 'c', 'p', 'p'];
    assert(c.subrange(c.len() - 2, c.len() as int) =~= seq!['p', 'p']);
    assert(crate::text::ascii_lower('p') != crate::text::ascii_lower('c'));
    assert(crate::text::ascii_lower('p') != crate::text::ascii_lower('.'));
}

/// The language a source file is submitted as.
pub fn submission_language(filename: &str) -> (language: String)
    ensures
        language@ == language_of(filename@),
{
    let suffix = ".c";
    proof {
        reveal_strlit(".c");
        assert(suffix@ =~= seq!['.', 'c']);
    }
    if ends_with_ignore_ascii_case_str(filename, suffix) {
        let r = String::from_str("c");
        proof {
            reveal_strlit("c");
            assert(r@ =~= seq!['c']);
        }
        r
    } else {
        let r = String::from_str("cpp");
        proof {
            reveal_strlit("cpp");
            assert(r@ =~= seq!['c', 'p', 'p']);
        }
        r
    }
}

/// The fields of the submission form (`submit_problem[...]`); the entry point is sent
/// empty and the code as a `text/plain` file part.
#[derive(Debug)]
pub struct SubmissionForm {
    pub problem_id: u32,
    pub language: String,
    pub token: String,
    pub source_filename: String,
    pub source_code: String,
}

/// Where a submission stands.
#[derive(Debug, Clone, Copy, PartialEq, Eq)]
pub enum SubmitStep {
    Start,
    AwaitingSubmitPage,
    AwaitingSubmitPageBody,
    AwaitingSubmitReply,
    Done,
}

/// Why a submission failed.
#[derive(Debug, Clone, PartialEq, Eq)]
pub enum SubmitFailure {
    /// The participant holds no usable session cookie.
    MissingSessionCookie,
    /// `GET /team/submit` failed; the error's text.
    SubmitPageTransport { error: String },
    /// The submit page could not be read; the error's text.
    SubmitPageUnreadable { error: String },
    /// The submit page holds no `submit_problem[_token]` field.
    MissingToken,
    /// `POST /team/submit` failed; the error's text.
    PostTransport { error: String },
    /// An event came that the step it reached cannot take.
    OutOfOrder,
}

/// How a submission ended.
#[derive(Debug, Clone, PartialEq, Eq)]
pub enum SubmitOutcome {
    /// The form was accepted (a success or a redirect).
    Submitted,
    /// The harness reported an error of its own; it is passed on as it is.
    Aborted,
    /// The submit page answered with a status that is not a success: the request is
    /// recorded as failed and the submission fails.
    SubmitPageRejected,
    /// The form was answered neither with success nor with a redirect: the request is
    /// recorded as failed.
    SubmissionRejected,
    /// The submission failed.
    Failed { failure: SubmitFailure },
}

/// What happened to what the submission last asked for.
#[derive(Debug)]
pub enum SubmitEvent {
    Begin,
    Aborted,
    Failed { error: String },
    Page { status: u16 },
    Body { html: String },
    Reply { status: u16 },
}

/// What the submission asks for next.
#[derive(Debug)]
pub enum SubmitAction {
    /// `GET /team/submit` with the session cookie.
    FetchSubmitPage { cookie_header: String },
    /// Read the submit page's text.
    ReadSubmitPageBody,
    /// `POST /team/submit` with the session cookie and the form.
    PostSubmission { cookie_header: String, form: SubmissionForm },
    /// Stop.
    Finish { outcome: SubmitOutcome },
}

/// One submission of one solution of one problem.
#[derive(Debug)]
pub struct SubmissionFlow {
    pub step: SubmitStep,
    pub session_cookie: Option<String>,
    pub problem_id: u32,
    pub source_filename: String,
    pub source_code: String,
}

/// The submission keeps its data.
pub open spec fn keeps_data(pre: SubmissionFlow, post: SubmissionFlow) -> bool {
    &&& post.session_cookie == pre.session_cookie
    &&& post.problem_id == pre.problem_id
    &&& post.source_filename == pre.source_filename
    &&& post.source_code == pre.source_code
}

/// The step stops the submission with `outcome`.
pub open spec fn stops(pre: SubmissionFlow, post: SubmissionFlow, act: SubmitAction, outcome: SubmitOutcome) -> bool {
    &&& keeps_data(pre, post)
    &&& post.step == SubmitStep::Done
    &&& act == SubmitAction::Finish { outcome }
}

/// One step of a submission.
pub open spec fn submit_step(pre: SubmissionFlow, e: SubmitEvent, post: SubmissionFlow, act: SubmitAction) -> bool {
    let out_of_order = SubmitOutcome::Failed { failure: SubmitFailure::OutOfOrder };
    match pre.step {
        SubmitStep::Start => match e {
            SubmitEvent::Begin => match pre.session_cookie {
                None => stops(pre, post, act, SubmitOutcome::Failed { failure: SubmitFailure::MissingSessionCookie }),
                Some(c) => {
                    &&& keeps_data(pre, post)
                    &&& post.step == SubmitStep::AwaitingSubmitPage
                    &&& act matches SubmitAction::FetchSubmitPage { cookie_header }
                    &&& cookie_header@ == c@
                },
            },
            _ => stops(pre, post, act, out_of_order),
        },
        SubmitStep::AwaitingSubmitPage => match e {
            SubmitEvent::Aborted => stops(pre, post, act, SubmitOutcome::Aborted),
            SubmitEvent::Failed { error } => stops(
                pre,
                post,
                act,
                SubmitOutcome::Failed { failure: SubmitFailure::SubmitPageTransport { error } },
            ),
            SubmitEvent::Page { status } => if is_success(status) {
                keeps_data(pre, post) && post.step == SubmitStep::AwaitingSubmitPageBody && act
                    == SubmitAction::ReadSubmitPageBody
            } else {
                stops(pre, post, act, SubmitOutcome::SubmitPageRejected)
            },
            _ => stops(pre, post, act, out_of_order),
        },
        SubmitStep::AwaitingSubmitPageBody => match e {
            SubmitEvent::Aborted => stops(pre, post, act, SubmitOutcome::Aborted),
            SubmitEvent::Failed { error } => stops(
                pre,
                post,
                act,
                SubmitOutcome::Failed { failure: SubmitFailure::SubmitPageUnreadable { error } },
            ),
            SubmitEvent::Body { html } => match submit_csrf_token(html@) {
                None => stops(pre, post, act, SubmitOutcome::Failed { failure: SubmitFailure::MissingToken }),
                Some(t) => {
                    &&& keeps_data(pre, post)
                    &&& post.step == SubmitStep::AwaitingSubmitReply
                    &&& pre.session_cookie is Some
                    &&& act matches SubmitAction::PostSubmission { cookie_header, form }
                    &&& cookie_header@ == pre.session_cookie->0@
                    &&& form.problem_id == pre.problem_id
                    &&& form.language@ == language_of(pre.source_filename@)
                    &&& form.token@ == t
                    &&& form.source_filename@ == pre.source_filename@
                    &&& form.source_code@ == pre.source_code@
                },
            },
            _ => stops(pre, post, act, out_of_order),
        },
        SubmitStep::AwaitingSubmitReply => match e {
            SubmitEvent::Aborted => stops(pre, post, act, SubmitOutcome::Aborted),
            SubmitEvent::Failed { error } => stops(
                pre,
                post,
                act,
                SubmitOutcome::Failed { failure: SubmitFailure::PostTransport { error } },
            ),
            SubmitEvent::Reply { status } => if is_success(status) || is_redirection(status) {
                stops(pre, post, act, SubmitOutcome::Submitted)
            } else {
                stops(pre, post, act, SubmitOutcome::SubmissionRejected)
            },
            _ => stops(pre, post, act, out_of_order),
        },
        SubmitStep::Done => stops(pre, post, act, out_of_order),
    }
}

/// The well-formed submission: once past the start it holds a session cookie.
pub open spec fn submission_wf(f: SubmissionFlow) -> bool {
    (f.step == SubmitStep::AwaitingSubmitPage || f.step == SubmitStep::AwaitingSubmitPageBody
        || f.step == SubmitStep::AwaitingSubmitReply) ==> f.session_cookie is Some
}

impl SubmissionFlow {
    /// The submission, by `user`, of the `kind` solution of `problem`, with the user's
    /// session cookie where it is usable.
    pub fn new(user: &AssignedUser, problem: &ContestProblemAsset, kind: SolutionKind) -> (f: SubmissionFlow)
        ensures
            f.step == SubmitStep::Start,
            f.problem_id == problem.id,
            match user.session_cookie {
                Some(c) => if c@.len() > 0 { f.session_cookie == Some(c) } else { f.session_cookie is None },
                None => f.session_cookie is None,
            },
            kind == SolutionKind::Ac ==> f.source_filename == problem.ac_filename && f.source_code == problem.ac_code,
            kind == SolutionKind::Tle ==> f.source_filename == problem.tle_filename && f.source_code == problem.tle_code,
            submission_wf(f),
    {
        let (source_filename, source_code) = match kind {
            SolutionKind::Ac => (problem.ac_filename.clone(), problem.ac_code.clone()),
            SolutionKind::Tle => (problem.tle_filename.clone(), problem.tle_code.clone()),
        };
        SubmissionFlow {
            step: SubmitStep::Start,
            session_cookie: user.usable_session_cookie(),
            problem_id: problem.id,
            source_filename,
            source_code,
        }
    }

    fn stop(&mut self, outcome: SubmitOutcome) -> (act: SubmitAction)
        ensures
            stops(*old(self), *final(self), act, outcome),
            submission_wf(*final(self)),
    {
        self.step = SubmitStep::Done;
        SubmitAction::Finish { outcome }
    }

    /// One step of the submission.
    pub fn step(&mut self, event: SubmitEvent) -> (act: SubmitAction)
        requires
            submission_wf(*old(self)),
        ensures
            submission_wf(*final(self)),
            submit_step(*old(self), event, *final(self), act),
    {
        let out_of_order = SubmitOutcome::Failed { failure: SubmitFailure::OutOfOrder };
        match self.step {
            SubmitStep::Start => match event {
                SubmitEvent::Begin => match &self.session_cookie {
                    None => self.stop(SubmitOutcome::Failed { failure: SubmitFailure::MissingSessionCookie }),
                    Some(c) => {
                        let cookie_header = c.clone();
                        self.step = SubmitStep::AwaitingSubmitPage;
                        SubmitAction::FetchSubmitPage { cookie_header }
                    },
                },
                _ => self.stop(out_of_order),
            },
            SubmitStep::AwaitingSubmitPage => match event {
                SubmitEvent::Aborted => self.stop(SubmitOutcome::Aborted),
                SubmitEvent::Failed { error } => self.stop(
                    SubmitOutcome::Failed { failure: SubmitFailure::SubmitPageTransport { error } },
                ),
                SubmitEvent::Page { status } => if status_is_success(status) {
                    self.step = SubmitStep::AwaitingSubmitPageBody;
                    SubmitAction::ReadSubmitPageBody
                } else {
                    self.stop(SubmitOutcome::SubmitPageRejected)
                },
                _ => self.stop(out_of_order),
            },
            SubmitStep::AwaitingSubmitPageBody => match event {
                SubmitEvent::Aborted => self.stop(SubmitOutcome::Aborted),
                SubmitEvent::Failed { error } => self.stop(
                    SubmitOutcome::Failed { failure: SubmitFailure::SubmitPageUnreadable { error } },
                ),
                SubmitEvent::Body { html } => match extract_submit_csrf_token(html.as_str()) {
                    None => self.stop(SubmitOutcome::Failed { failure: SubmitFailure::MissingToken }),
                    Some(token) => {
                        let cookie_header = match &self.session_cookie {
                            Some(c) => c.clone(),
                            None => String::new(),
                        };
                        let form = SubmissionForm {
                            problem_id: self.problem_id,
                            language: submission_language(self.source_filename.as_str()),
                            token,
                            source_filename: self.source_filename.clone(),
                            source_code: self.source_code.clone(),
                        };
                        self.step = SubmitStep::AwaitingSubmitReply;
                        SubmitAction::PostSubmission { cookie_header, form }
                    },
                },
                _ => self.stop(out_of_order),
            },
            SubmitStep::AwaitingSubmitReply => match event {
                SubmitEvent::Aborted => self.stop(SubmitOutcome::Aborted),
                SubmitEvent::Failed { error } => self.stop(
                    SubmitOutcome::Failed { failure: SubmitFailure::PostTransport { error } },
                ),
                SubmitEvent::Reply { status } => if status_is_success(status) || status_is_redirection(status) {
                    self.stop(SubmitOutcome::Submitted)
                } else {
                    self.stop(SubmitOutcome::SubmissionRejected)
                },
                _ => self.stop(out_of_order),
            },
            SubmitStep::Done => self.stop(out_of_order),
        }
    }
}

} // verus!

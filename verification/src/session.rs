//! The order of a run against the portal. The library decides what is asked
//! next and what a reply means; the caller sends each request, with the user
//! agent of this module and with the cookies of the replies before it, and
//! hands the body of the reply back.

use crate::auth::{is_authenticated, login_form, login_form_for, success_marker, Form};
use crate::error::GradesError;
use crate::scrape::{scrape_for, scrape_table, CourseData, CourseRecord};
use crate::text::contains;
use vstd::prelude::*;

verus! {

/// The three addresses of the portal.
#[derive(Debug, Clone, Copy, PartialEq, Eq, Structural)]
pub enum Endpoint {
    /// The list of courses with their grades. Asked for without a login, it
    /// answers with the login page.
    CourseList,
    /// Where the login form is sent.
    Login,
    /// Where the login is ended.
    Logout,
}

impl Endpoint {
    /// The address as text.
    pub open spec fn url_text(&self) -> Seq<char> {
        match self {
            Endpoint::CourseList =>
                "https://wrem.sis.yorku.ca/Apps/WebObjects/ydml.woa/wa/DirectAction/document?name=CourseListv1"@,
            Endpoint::Login => "https://passportyork.yorku.ca/ppylogin/ppylogin"@,
            Endpoint::Logout => "https://passportyork.yorku.ca/ppylogin/ppylogout"@,
        }
    }

    /// The address.
    pub fn url(&self) -> (url: &'static str)
        ensures
            url@ == self.url_text(),
    {
        match self {
            Endpoint::CourseList =>
                "https://wrem.sis.yorku.ca/Apps/WebObjects/ydml.woa/wa/DirectAction/document?name=CourseListv1",
            Endpoint::Login => "https://passportyork.yorku.ca/ppylogin/ppylogin",
            Endpoint::Logout => "https://passportyork.yorku.ca/ppylogin/ppylogout",
        }
    }
}

/// The user agent that every request names.
pub fn user_agent() -> (agent: &'static str)
    ensures
        agent@
            == "Mozilla/5.0 (Macintosh; Intel Mac OS X 10_15_6) AppleWebKit/605.1.15 (KHTML, like Gecko) Version/14.0.2 Safari/605.1.15"@,
{
    "Mozilla/5.0 (Macintosh; Intel Mac OS X 10_15_6) AppleWebKit/605.1.15 (KHTML, like Gecko) Version/14.0.2 Safari/605.1.15"
}

/// What the caller is to send.
#[derive(Debug, Clone, PartialEq, Eq)]
pub enum Request {
    /// A GET of the address.
    Get(Endpoint),
    /// A POST of the fields to the address, encoded as a form.
    PostForm(Endpoint, Vec<(String, String)>),
}

/// A request as a model.
pub enum RequestView {
    Get(Endpoint),
    PostForm(Endpoint, Form),
}

impl View for Request {
    type V = RequestView;

    open spec fn view(&self) -> RequestView {
        match self {
            Request::Get(endpoint) => RequestView::Get(*endpoint),
            Request::PostForm(endpoint, fields) => RequestView::PostForm(
                *endpoint,
                fields.deep_view(),
            ),
        }
    }
}

/// The reply that a session waits for.
#[derive(Debug, Clone, Copy, PartialEq, Eq, Structural)]
pub enum Stage {
    /// The login page, in reply to the first request for the course list.
    LoginPage,
    /// The reply to the login form.
    LoginReply,
    /// The course list, now with the grades.
    CourseList,
    /// The reply to the logout.
    Logout,
}

/// A run against the portal that waits for a reply.
#[derive(Debug, Clone, PartialEq, Eq)]
pub struct Session {
    pub username: String,
    pub password: String,
    pub stage: Stage,
    /// The records that were read; none before the course list has come.
    pub records: Vec<CourseData>,
}

/// A session as a model.
pub struct SessionView {
    pub username: Seq<char>,
    pub password: Seq<char>,
    pub stage: Stage,
    pub records: Seq<CourseRecord>,
}

impl View for Session {
    type V = SessionView;

    open spec fn view(&self) -> SessionView {
        SessionView {
            username: self.username@,
            password: self.password@,
            stage: self.stage,
            records: self.records.deep_view(),
        }
    }
}

/// What a reply leads to.
#[derive(Debug, Clone, PartialEq, Eq)]
pub enum Step {
    /// The run goes on: the request is to be sent, and its reply handed to
    /// the session.
    Send(Session, Request),
    /// The run is over, with these records.
    Done(Vec<CourseData>),
    /// The run is over without a result. Nothing more is sent.
    Failed(GradesError),
}

/// A step as a model.
pub enum StepView {
    Send(SessionView, RequestView),
    Done(Seq<CourseRecord>),
    Failed(GradesError),
}

impl View for Step {
    type V = StepView;

    open spec fn view(&self) -> StepView {
        match self {
            Step::Send(session, request) => StepView::Send(session@, request@),
            Step::Done(records) => StepView::Done(records.deep_view()),
            Step::Failed(e) => StepView::Failed(*e),
        }
    }
}

/// The session at the start of a run: it waits for the login page and holds
/// no record.
pub open spec fn begin_of(username: Seq<char>, password: Seq<char>) -> SessionView {
    SessionView { username, password, stage: Stage::LoginPage, records: Seq::empty() }
}

/// What the reply `reply` leads to in the session `session`.
///
/// - The login page gives the login form, which is posted; a page whose
///   hidden inputs are incomplete, or one too long to parse, ends the run.
/// - The reply to the login is searched for the marker of success; without
///   it the run ends, with it the course list is asked for again.
/// - The course list gives the records; then the logout is asked for. A
///   list without the table, with a short row, or too long to parse ends
///   the run.
/// - The reply to the logout is not looked at: the run is over with the
///   records.
pub open spec fn advance_of(session: SessionView, reply: Seq<char>) -> StepView {
    match session.stage {
        Stage::LoginPage => match login_form_for(reply, session.username, session.password) {
            Ok(form) => StepView::Send(
                SessionView { stage: Stage::LoginReply, ..session },
                RequestView::PostForm(Endpoint::Login, form),
            ),
            Err(e) => StepView::Failed(e),
        },
        Stage::LoginReply => if contains(reply, success_marker()) {
            StepView::Send(
                SessionView { stage: Stage::CourseList, ..session },
                RequestView::Get(Endpoint::CourseList),
            )
        } else {
            StepView::Failed(GradesError::AuthenticationFailed)
        },
        Stage::CourseList => match scrape_for(reply) {
            Ok(records) => StepView::Send(
                SessionView { stage: Stage::Logout, records, ..session },
                RequestView::Get(Endpoint::Logout),
            ),
            Err(e) => StepView::Failed(e),
        },
        Stage::Logout => StepView::Done(session.records),
    }
}

/// The number of requests that a session in this stage may still send.
pub open spec fn requests_left(stage: Stage) -> nat {
    match stage {
        Stage::LoginPage => 3,
        Stage::LoginReply => 2,
        Stage::CourseList => 1,
        Stage::Logout => 0,
    }
}

impl Session {
    /// Starts a run: the session, and the first request, which asks for the
    /// course list.
    pub fn begin(username: &str, password: &str) -> (start: (Session, Request))
        ensures
            start.0@ == begin_of(username@, password@),
            start.1@ == RequestView::Get(Endpoint::CourseList),
    {
        let session = Session {
            username: username.to_owned(),
            password: password.to_owned(),
            stage: Stage::LoginPage,
            records: Vec::new(),
        };
        assert(session.records.deep_view() =~= Seq::<CourseRecord>::empty());
        (session, Request::Get(Endpoint::CourseList))
    }

    /// Takes the body of the reply to the request that was sent last, and
    /// says how the run goes on.
    pub fn advance(self, reply: &str) -> (step: Step)
        ensures
            step@ == advance_of(self@, reply@),
    {
        match self.stage {
            Stage::LoginPage => match login_form(
                reply,
                self.username.as_str(),
                self.password.as_str(),
            ) {
                Ok(form) => Step::Send(
                    Session {
                        username: self.username,
                        password: self.password,
                        stage: Stage::LoginReply,
                        records: self.records,
                    },
                    Request::PostForm(Endpoint::Login, form),
                ),
                Err(e) => Step::Failed(e),
            },
            Stage::LoginReply => if is_authenticated(reply) {
                Step::Send(
                    Session {
                        username: self.username,
                        password: self.password,
                        stage: Stage::CourseList,
                        records: self.records,
                    },
                    Request::Get(Endpoint::CourseList),
                )
            } else {
                Step::Failed(GradesError::AuthenticationFailed)
            },
            Stage::CourseList => match scrape_table(reply) {
                Ok(records) => Step::Send(
                    Session {
                        username: self.username,
                        password: self.password,
                        stage: Stage::Logout,
                        records,
                    },
                    Request::Get(Endpoint::Logout),
                ),
                Err(e) => Step::Failed(e),
            },
            Stage::Logout => Step::Done(self.records),
        }
    }
}

/// Each request that a session sends leaves it one request less to send,
/// and a session that has none left sends none. A run starts with three left:
/// with the request that starts it, it sends four requests at most.
pub proof fn lemma_requests_bounded(session: SessionView, reply: Seq<char>)
    ensures
        advance_of(session, reply) matches StepView::Send(next, _) ==> requests_left(next.stage)
            + 1 == requests_left(session.stage),
        requests_left(session.stage) == 0 ==> !(advance_of(session, reply) is Send),
        session.stage == Stage::LoginPage ==> requests_left(session.stage) == 3,
{
}

/// Where the login page is well formed, the login succeeds and the course
/// list holds a well-shaped table, a run sends exactly four requests, in this
/// order: it asks for the course list, posts the login form, asks for the
/// course list again, and asks for the logout. It ends with the records of
/// the course list, whatever the reply to the logout holds.
pub proof fn lemma_run_order(
    username: Seq<char>,
    password: Seq<char>,
    login_page: Seq<char>,
    login_reply: Seq<char>,
    course_list: Seq<char>,
    logout_reply: Seq<char>,
)
    requires
        login_form_for(login_page, username, password) is Ok,
        contains(login_reply, success_marker()),
        scrape_for(course_list) is Ok,
    ensures
        ({
            let form = login_form_for(login_page, username, password)->Ok_0;
            let records = scrape_for(course_list)->Ok_0;
            let first = begin_of(username, password);
            let second = SessionView { stage: Stage::LoginReply, ..first };
            let third = SessionView { stage: Stage::CourseList, ..first };
            let fourth = SessionView { stage: Stage::Logout, records, ..first };
            &&& advance_of(first, login_page) == StepView::Send(
                second,
                RequestView::PostForm(Endpoint::Login, form),
            )
            &&& advance_of(second, login_reply) == StepView::Send(
                third,
                RequestView::Get(Endpoint::CourseList),
            )
            &&& advance_of(third, course_list) == StepView::Send(
                fourth,
                RequestView::Get(Endpoint::Logout),
            )
            &&& advance_of(fourth, logout_reply) == StepView::Done(records)
        }),
{
}

} // verus!

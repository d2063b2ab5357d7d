use grades_list::error::GradesError;
use grades_list::gpa::gpa_terms;
use grades_list::html::MAX_TEXT_LEN;
use grades_list::scrape::CourseData;
use grades_list::session::{user_agent, Endpoint, Request, Session, Stage, Step};

const LOGIN_PAGE: &str = "<html><body><form method=\"post\">\
    <input type=\"hidden\" name=\"__albform__\" value=\"abc\">\
    <input type=\"hidden\" name=\"__albstate__\" value=\"def\">\
    <input type=\"text\" name=\"mli\"><input type=\"password\" name=\"password\">\
    </form></body></html>";

const LOGIN_REPLY: &str = "<html><body><p>You have successfully authenticated.</p></body></html>";

const COURSE_LIST: &str = "<html><body><table class=\"bodytext\">\
    <tr><th>Session</th><th>Course</th><th>Title</th><th>Grade</th></tr>\
    <tr><td>FW20</td><td>AP MATH 1000 3.00</td><td>Calculus &amp; more</td><td>A+</td></tr>\
    <tr><td>FW20</td><td>AP MATH 2000 3.00</td><td>Algebra</td><td>B</td></tr>\
    </table></body></html>";

fn pair(name: &str, value: &str) -> (String, String) {
    (name.to_owned(), value.to_owned())
}

fn sent(step: Step) -> (Session, Request) {
    match step {
        Step::Send(session, request) => (session, request),
        other => panic!("the run ended: {:?}", other),
    }
}

#[test]
fn a_run_sends_four_requests_in_order() {
    let mut requests: Vec<Request> = Vec::new();
    let (session, request) = Session::begin("alice", "secret");
    assert_eq!(session.stage, Stage::LoginPage);
    requests.push(request);
    let (session, request) = sent(session.advance(LOGIN_PAGE));
    requests.push(request);
    let (session, request) = sent(session.advance(LOGIN_REPLY));
    requests.push(request);
    let (session, request) = sent(session.advance(COURSE_LIST));
    requests.push(request);
    let records = match session.advance("anything at all") {
        Step::Done(records) => records,
        other => panic!("the run did not end: {:?}", other),
    };
    assert_eq!(
        requests,
        vec![
            Request::Get(Endpoint::CourseList),
            Request::PostForm(
                Endpoint::Login,
                vec![
                    pair("mli", "alice"),
                    pair("password", "secret"),
                    pair("dologin", "Login"),
                    pair("__albform__", "abc"),
                    pair("__albstate__", "def"),
                ]
            ),
            Request::Get(Endpoint::CourseList),
            Request::Get(Endpoint::Logout),
        ]
    );
    assert_eq!(
        records,
        vec![
            CourseData {
                session: "FW20".to_owned(),
                course: "AP MATH 1000 3.00".to_owned(),
                title: "Calculus & more".to_owned(),
                grade: "A+".to_owned(),
            },
            CourseData {
                session: "FW20".to_owned(),
                course: "AP MATH 2000 3.00".to_owned(),
                title: "Algebra".to_owned(),
                grade: "B".to_owned(),
            },
        ]
    );
    let terms = gpa_terms(&records).unwrap();
    let mut credits = 0.0f32;
    let mut nine = 0.0f32;
    let mut four = 0.0f32;
    for term in &terms {
        let credit = term.credit.parse::<f32>().unwrap();
        nine += f32::from(term.points.nine) * credit;
        four += f32::from(term.points.four_tenths) / 10.0 * credit;
        credits += credit;
    }
    assert_eq!(nine / credits, (9.0 * 3.0 + 6.0 * 3.0) / 6.0);
    assert_eq!(four / credits, (4.0 * 3.0 + 3.0 * 3.0) / 6.0);
}

#[test]
fn a_run_begins_with_the_course_list() {
    let (session, request) = Session::begin("u", "p");
    assert_eq!(request, Request::Get(Endpoint::CourseList));
    assert_eq!(session.username, "u");
    assert_eq!(session.password, "p");
    assert_eq!(session.stage, Stage::LoginPage);
    assert!(session.records.is_empty());
}

#[test]
fn a_malformed_login_page_ends_the_run() {
    let (session, _) = Session::begin("u", "p");
    let step = session.advance("<input type=\"hidden\" name=\"only\">");
    assert_eq!(step, Step::Failed(GradesError::MalformedPage));
}

#[test]
fn a_failed_login_ends_the_run() {
    let (session, _) = Session::begin("u", "wrong");
    let (session, request) = sent(session.advance(LOGIN_PAGE));
    assert!(matches!(request, Request::PostForm(Endpoint::Login, _)));
    assert_eq!(session.stage, Stage::LoginReply);
    let step = session.advance("<html>Authentication failed. you have successfully authenticated?</html>");
    assert_eq!(step, Step::Failed(GradesError::AuthenticationFailed));
}

#[test]
fn a_course_list_without_the_table_ends_the_run() {
    let (session, _) = Session::begin("u", "p");
    let (session, _) = sent(session.advance(LOGIN_PAGE));
    let (session, request) = sent(session.advance(LOGIN_REPLY));
    assert_eq!(request, Request::Get(Endpoint::CourseList));
    assert_eq!(session.stage, Stage::CourseList);
    assert_eq!(session.advance(LOGIN_REPLY), Step::Failed(GradesError::TableNotFound));
}

#[test]
fn a_course_list_with_a_short_row_ends_the_run() {
    let (session, _) = Session::begin("u", "p");
    let (session, _) = sent(session.advance(LOGIN_PAGE));
    let (session, _) = sent(session.advance(LOGIN_REPLY));
    let page = "<table class=\"bodytext\"><tr><td>a</td><td>b</td></tr></table>";
    assert_eq!(session.advance(page), Step::Failed(GradesError::RowShape));
}

#[test]
fn the_logout_reply_is_not_looked_at() {
    for reply in ["", "<table class=\"bodytext\"></table>", "You have successfully authenticated"] {
        let (session, _) = Session::begin("u", "p");
        let (session, _) = sent(session.advance(LOGIN_PAGE));
        let (session, _) = sent(session.advance(LOGIN_REPLY));
        let (session, request) = sent(session.advance(COURSE_LIST));
        assert_eq!(request, Request::Get(Endpoint::Logout));
        assert_eq!(session.stage, Stage::Logout);
        assert_eq!(session.records.len(), 2);
        match session.advance(reply) {
            Step::Done(records) => assert_eq!(records.len(), 2),
            other => panic!("the run did not end: {:?}", other),
        }
    }
}

#[test]
fn the_addresses_of_the_portal() {
    assert_eq!(
        Endpoint::CourseList.url(),
        "https://wrem.sis.yorku.ca/Apps/WebObjects/ydml.woa/wa/DirectAction/document?name=CourseListv1"
    );
    assert_eq!(Endpoint::Login.url(), "https://passportyork.yorku.ca/ppylogin/ppylogin");
    assert_eq!(Endpoint::Logout.url(), "https://passportyork.yorku.ca/ppylogin/ppylogout");
    assert_eq!(
        user_agent(),
        "Mozilla/5.0 (Macintosh; Intel Mac OS X 10_15_6) AppleWebKit/605.1.15 (KHTML, like Gecko) Version/14.0.2 Safari/605.1.15"
    );
}

#[test]
fn the_messages_of_the_failures() {
    assert_eq!(GradesError::AuthenticationFailed.message(), "Could not authenticate!");
    assert_eq!(GradesError::TableNotFound.message(), "Could not find table!");
    assert_eq!(GradesError::PageTooLong.message(), "The page is too long!");
    let all = [
        GradesError::PageTooLong,
        GradesError::BadSelector,
        GradesError::MalformedPage,
        GradesError::AuthenticationFailed,
        GradesError::TableNotFound,
        GradesError::RowShape,
        GradesError::CreditParse,
    ];
    for (i, a) in all.iter().enumerate() {
        assert!(!a.message().is_empty());
        for b in &all[i + 1..] {
            assert_ne!(a.message(), b.message());
        }
    }
}

#[test]
fn a_page_too_long_to_parse_ends_the_run() {
    let long = "x".repeat(MAX_TEXT_LEN + 1);
    let (session, _) = Session::begin("u", "p");
    assert_eq!(session.advance(&long), Step::Failed(GradesError::PageTooLong));
    let (session, _) = Session::begin("u", "p");
    let (session, _) = sent(session.advance(LOGIN_PAGE));
    let (session, _) = sent(session.advance(LOGIN_REPLY));
    assert_eq!(session.advance(&long), Step::Failed(GradesError::PageTooLong));
}

#[test]
fn a_long_login_reply_is_searched_whole() {
    let mut reply = "x".repeat(MAX_TEXT_LEN + 1);
    let (session, _) = Session::begin("u", "p");
    let (session, _) = sent(session.advance(LOGIN_PAGE));
    assert_eq!(session.clone().advance(&reply), Step::Failed(GradesError::AuthenticationFailed));
    reply.push_str("You have successfully authenticated");
    let (session, request) = sent(session.advance(&reply));
    assert_eq!(request, Request::Get(Endpoint::CourseList));
    assert_eq!(session.stage, Stage::CourseList);
}

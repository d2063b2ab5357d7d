use grades_list::auth::{
    hidden_fields, is_authenticated, login_fields, login_form, login_form_from, set_field,
};
use grades_list::error::GradesError;
use grades_list::html::MAX_TEXT_LEN;

fn pair(name: &str, value: &str) -> (String, String) {
    (name.to_owned(), value.to_owned())
}

fn attr(name: Option<&str>, value: Option<&str>) -> (Option<String>, Option<String>) {
    (name.map(String::from), value.map(String::from))
}

#[test]
fn login_form_has_three_fields_more_than_hidden_inputs() {
    for n in 0..6usize {
        let hidden: Vec<(String, String)> =
            (0..n).map(|i| (format!("token{}", i), format!("value{}", i))).collect();
        let form = login_fields("alice", "secret", &hidden);
        assert_eq!(form.len(), n + 3);
        assert_eq!(form[0], pair("mli", "alice"));
        assert_eq!(form[1], pair("password", "secret"));
        assert_eq!(form[2], pair("dologin", "Login"));
        assert_eq!(&form[3..], &hidden[..]);
    }
}

#[test]
fn hidden_field_overrides_fixed_field_of_the_same_name() {
    let hidden = vec![pair("csrf", "abc"), pair("dologin", "Other"), pair("mli", "mallory")];
    let form = login_fields("alice", "secret", &hidden);
    assert_eq!(
        form,
        vec![pair("mli", "mallory"), pair("password", "secret"), pair("dologin", "Other"), pair("csrf", "abc")]
    );
}

#[test]
fn later_hidden_field_overrides_earlier_one() {
    let hidden = vec![pair("t", "1"), pair("u", "2"), pair("t", "3")];
    let form = login_fields("a", "b", &hidden);
    assert_eq!(form.len(), 5);
    assert_eq!(form[3], pair("t", "3"));
    assert_eq!(form[4], pair("u", "2"));
}

#[test]
fn set_field_replaces_or_appends() {
    let mut form = vec![pair("a", "1"), pair("b", "2")];
    set_field(&mut form, "b".to_owned(), "3".to_owned());
    assert_eq!(form, vec![pair("a", "1"), pair("b", "3")]);
    set_field(&mut form, "c".to_owned(), "4".to_owned());
    assert_eq!(form, vec![pair("a", "1"), pair("b", "3"), pair("c", "4")]);
    let mut empty: Vec<(String, String)> = Vec::new();
    set_field(&mut empty, "x".to_owned(), "".to_owned());
    assert_eq!(empty, vec![pair("x", "")]);
}

#[test]
fn hidden_fields_need_name_and_value() {
    let complete = vec![attr(Some("a"), Some("1")), attr(Some("b"), Some(""))];
    assert_eq!(hidden_fields(&complete), Ok(vec![pair("a", "1"), pair("b", "")]));
    assert_eq!(hidden_fields(&Vec::new()), Ok(Vec::new()));
    let no_value = vec![attr(Some("a"), Some("1")), attr(Some("b"), None)];
    assert_eq!(hidden_fields(&no_value), Err(GradesError::MalformedPage));
    let no_name = vec![attr(None, Some("1"))];
    assert_eq!(hidden_fields(&no_name), Err(GradesError::MalformedPage));
    let neither = vec![attr(None, None)];
    assert_eq!(hidden_fields(&neither), Err(GradesError::MalformedPage));
}

#[test]
fn login_form_from_what_was_found() {
    assert_eq!(login_form_from(&None, "u", "p"), Err(GradesError::BadSelector));
    let found = Some(vec![attr(Some("k"), Some("v"))]);
    assert_eq!(
        login_form_from(&found, "u", "p"),
        Ok(vec![pair("mli", "u"), pair("password", "p"), pair("dologin", "Login"), pair("k", "v")])
    );
    let broken = Some(vec![attr(Some("k"), None)]);
    assert_eq!(login_form_from(&broken, "u", "p"), Err(GradesError::MalformedPage));
}

#[test]
fn login_form_reads_the_hidden_inputs_of_a_page() {
    let page = "<html><body><form action=\"/login\" method=\"post\">\
        <input type=\"hidden\" name=\"__session\" value=\"s-1\">\
        <input type=\"text\" name=\"mli\" value=\"\">\
        <input type=\"password\" name=\"password\">\
        <input type='hidden' value=\"t&amp;2\" name=\"token\">\
        <input type=\"submit\" name=\"dologin\" value=\"Login\">\
        </form></body></html>";
    assert_eq!(
        login_form(page, "alice", "secret"),
        Ok(vec![
            pair("mli", "alice"),
            pair("password", "secret"),
            pair("dologin", "Login"),
            pair("__session", "s-1"),
            pair("token", "t&2"),
        ])
    );
}

#[test]
fn login_form_of_a_page_without_hidden_inputs() {
    assert_eq!(
        login_form("<p>nothing here</p>", "a", "b"),
        Ok(vec![pair("mli", "a"), pair("password", "b"), pair("dologin", "Login")])
    );
    assert_eq!(
        login_form("", "a", "b"),
        Ok(vec![pair("mli", "a"), pair("password", "b"), pair("dologin", "Login")])
    );
}

#[test]
fn login_form_of_a_malformed_page() {
    let no_value = "<form><input type=\"hidden\" name=\"a\"></form>";
    assert_eq!(login_form(no_value, "a", "b"), Err(GradesError::MalformedPage));
    let no_name = "<form><input type=\"hidden\" value=\"a\"></form>";
    assert_eq!(login_form(no_name, "a", "b"), Err(GradesError::MalformedPage));
}

#[test]
fn authenticated_iff_marker_is_in_the_reply() {
    assert!(is_authenticated("You have successfully authenticated"));
    assert!(is_authenticated("<html><b>You have successfully authenticated</b>!</html>"));
    assert!(is_authenticated("xYou have successfully authenticatedYou have"));
}

#[test]
fn near_matches_do_not_authenticate() {
    assert!(!is_authenticated(""));
    assert!(!is_authenticated("you have successfully authenticated"));
    assert!(!is_authenticated("You have successfully Authenticated"));
    assert!(!is_authenticated("You have  successfully authenticated"));
    assert!(!is_authenticated("You have successfully authenticate"));
    assert!(!is_authenticated("You have successfully<br>authenticated"));
    assert!(!is_authenticated("You have not successfully authenticated."));
}

#[test]
fn login_form_of_a_page_too_long_to_parse() {
    let page = "a".repeat(MAX_TEXT_LEN + 1);
    assert_eq!(login_form(&page, "a", "b"), Err(GradesError::PageTooLong));
}

#[test]
fn page_length_counts_characters_not_bytes() {
    assert_eq!(MAX_TEXT_LEN, 0x0fff_ffff);
    let page = "<input type=\"hidden\" name=\"k\" value=\"\u{1F600}\u{e4}\">";
    assert_eq!(
        login_form(page, "a", "b"),
        Ok(vec![pair("mli", "a"), pair("password", "b"), pair("dologin", "Login"), pair("k", "\u{1F600}\u{e4}")])
    );
}

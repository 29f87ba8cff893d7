use edupage::credentials::LoginCredentials;
use edupage::error::EdupageError;
use edupage::extract::{extract_csrf_token, extract_payload_text};
use edupage::session::{is_rejected, login_page_url, login_submit_url, submission_form, Edupage};

const LOGIN_PAGE: &str = "<form><input type=\"hidden\" name=\"csrfauth\" value=\"ABC123\"></form>";

fn success_body() -> String {
    "<html><script>$j(document).ready(function() {\n\tuserhome({\"id\":1,\"name\":\"Jane\"});\n});</script></html>"
        .to_string()
}

#[test]
fn token_is_read_after_the_field() {
    assert_eq!(extract_csrf_token(LOGIN_PAGE), Ok("ABC123".to_string()));
}

#[test]
fn token_first_field_wins() {
    let page = "a name=\"csrfauth\" value=\"one\" b name=\"csrfauth\" value=\"two\"";
    assert_eq!(extract_csrf_token(page), Ok("one".to_string()));
}

#[test]
fn token_may_be_empty() {
    assert_eq!(extract_csrf_token("name=\"csrfauth\" value=\"\""), Ok(String::new()));
}

#[test]
fn token_missing_marker_is_invalid_response() {
    assert_eq!(extract_csrf_token("<html>welcome back</html>"), Err(EdupageError::InvalidResponse));
    assert_eq!(extract_csrf_token(""), Err(EdupageError::InvalidResponse));
}

#[test]
fn token_marker_without_field_is_parse_error() {
    let r = extract_csrf_token("<input name=csrfauth value=ABC123>");
    assert!(matches!(r, Err(EdupageError::ParseError(_))));
}

#[test]
fn token_unterminated_is_parse_error() {
    let r = extract_csrf_token("<input name=\"csrfauth\" value=\"ABC123");
    assert!(matches!(r, Err(EdupageError::ParseError(_))));
}

#[test]
fn payload_noise_is_removed() {
    let html = "x$j(document).ready(function() {\n\tuserhome({\"id\":1,\n\"name\":\r\"Jane\"\t});\n});";
    assert_eq!(extract_payload_text(html), Some("{\"id\":1,\"name\":\"Jane\"}".to_string()));
}

#[test]
fn payload_missing_script_is_none() {
    assert_eq!(extract_payload_text("userhome({\"id\":1});"), None);
}

#[test]
fn payload_missing_call_is_none() {
    assert_eq!(extract_payload_text("$j(document).ready(function() { other({}); });"), None);
}

#[test]
fn payload_round_trip_with_noise() {
    let mut v = serde_json::Map::new();
    v.insert("id".to_string(), serde_json::Value::from(7));
    v.insert("name".to_string(), serde_json::Value::from("Ann Lee"));
    let value = serde_json::Value::Object(v);
    let json = serde_json::to_string(&value).unwrap();
    let noisy: String = json.chars().flat_map(|c| vec![c, '\t', '\r', '\n']).collect();
    let html = format!("<p>$j(document).ready(function() {{ userhome({});\n}});</p>", noisy);
    let data = Edupage::parse_login_data(&html).unwrap();
    assert_eq!(data.value(), &value);
    assert_eq!(data.source(), json);
}

#[test]
fn payload_parse_is_repeatable() {
    let body = success_body();
    let a = Edupage::parse_login_data(&body).unwrap();
    let b = Edupage::parse_login_data(&body).unwrap();
    assert_eq!(a.value(), b.value());
    assert_eq!(a.source(), b.source());
}

#[test]
fn payload_bad_json_is_error() {
    let html = "$j(document).ready(function() { userhome({\"id\":1,}); });";
    assert!(Edupage::parse_login_data(html).is_err());
}

#[test]
fn urls_of_subdomain() {
    assert_eq!(login_page_url("school"), "https://school.edupage.org/login/index.php");
    assert_eq!(login_submit_url("school"), "https://school.edupage.org/login/edubarLogin.php");
}

#[test]
fn credentials_are_form_encoded() {
    let c = LoginCredentials::new("jane doe".to_string(), "p&ss".to_string(), "ABC123".to_string());
    assert_eq!(c.username, "jane doe");
    assert_eq!(c.to_form(), Ok("username=jane+doe&password=p%26ss&csrfauth=ABC123".to_string()));
}

#[test]
fn rejection_marker_in_url() {
    assert!(is_rejected("https://s.edupage.org/login/?bad=1"));
    assert!(!is_rejected("https://s.edupage.org/user/"));
}

#[test]
fn new_session_is_logged_out() {
    let s = Edupage::new();
    assert!(!s.logged_in());
    assert!(s.data().is_none());
}

#[test]
fn scenario_successful_login() {
    let form = submission_form(LOGIN_PAGE, "jane", "secret").unwrap();
    assert_eq!(form, "username=jane&password=secret&csrfauth=ABC123");
    let mut s = Edupage::new();
    assert_eq!(s.finish_login("https://s.edupage.org/user/", Ok(success_body())), Ok(()));
    assert!(s.logged_in());
    let data = s.data().unwrap();
    assert_eq!(data.value()["id"], 1);
    assert_eq!(data.value()["name"], "Jane");
}

#[test]
fn scenario_rejected_credentials() {
    let mut s = Edupage::new();
    let r = s.finish_login("https://s.edupage.org/login/?bad=1", Ok(success_body()));
    assert_eq!(r, Err(EdupageError::InvalidCredentials));
    assert!(!s.logged_in());
    assert!(s.data().is_none());
}

#[test]
fn scenario_page_without_token() {
    let r = submission_form("<html>no form here</html>", "jane", "secret");
    assert_eq!(r, Err(EdupageError::InvalidResponse));
}

#[test]
fn unreadable_body_is_http_error() {
    let mut s = Edupage::new();
    let r = s.finish_login("https://s.edupage.org/user/", Err("reset".to_string()));
    assert_eq!(r, Err(EdupageError::HTTPError("reset".to_string())));
    assert!(!s.logged_in());
}

#[test]
fn failed_login_keeps_earlier_session() {
    let mut s = Edupage::new();
    s.finish_login("https://s.edupage.org/user/", Ok(success_body())).unwrap();
    let r = s.finish_login("https://s.edupage.org/user/", Ok("<html></html>".to_string()));
    assert!(matches!(r, Err(EdupageError::ParseError(_))));
    assert!(s.logged_in());
    assert_eq!(s.data().unwrap().value()["name"], "Jane");
    let r = s.finish_login("https://s.edupage.org/login/?bad=1", Ok(String::new()));
    assert_eq!(r, Err(EdupageError::InvalidCredentials));
    assert_eq!(s.data().unwrap().value()["id"], 1);
}

#[test]
fn payload_bad_json_keeps_decoder_message() {
    let html = "$j(document).ready(function() { userhome({\"id\":1,}); });";
    let expected = serde_json::from_str::<serde_json::Value>("{\"id\":1,}").unwrap_err().to_string();
    assert_eq!(Edupage::parse_login_data(html).err(), Some(expected.clone()));
    let mut s = Edupage::new();
    let r = s.finish_login("https://s.edupage.org/user/", Ok(html.to_string()));
    assert_eq!(r, Err(EdupageError::ParseError(expected)));
    assert!(!s.logged_in());
}

#[test]
fn payload_after_leading_text() {
    let html = "<p>$j(document).ready(function() {\n   init();\tuserhome({\"id\":2});\n});";
    assert_eq!(extract_payload_text(html), None);
    let html = "<p>$j(document).ready(function() {\n   \r\n\tuserhome({\"id\":2});\n});";
    assert_eq!(extract_payload_text(html), Some("{\"id\":2}".to_string()));
}

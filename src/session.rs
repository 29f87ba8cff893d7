//! Session state and the decisions of the login handshake.
//!
//! The handshake runs in four steps: fetch the login page, read its token,
//! submit the credential form, then judge the answer. The network work of each
//! step is done by the caller; the functions here decide what to send and what
//! an answer means, and commit the session only when a login fully succeeds.
use vstd::prelude::*;
use crate::credentials::{credential_fields, form_encoding, LoginCredentials};
use crate::error::EdupageError;
use crate::extract::{auth_word, extract_csrf_token, extract_payload_text, payload_text, token_value};
use crate::text::{chars_of, contains, find_from, lemma_contains_first};

verus! {

/// What the JSON decoder reports on a text: nothing when it accepts the text,
/// else its error message.
pub uninterp spec fn json_decode_error(s: Seq<char>) -> Option<Seq<char>>;

/// Whether the JSON decoder accepts a text.
pub open spec fn json_accepts(s: Seq<char>) -> bool {
    json_decode_error(s) is None
}

#[verifier::external_type_specification]
#[verifier::external_body]
pub struct ExJsonValue(serde_json::Value);

/// Relies on serde_json::from_str into serde_json::Value, and on the error's
/// message: both depend on the text alone.
#[verifier::external_body]
fn decode_json(s: &str) -> (r: Result<serde_json::Value, String>)
    ensures
        r is Ok <==> json_decode_error(s@) is None,
        r matches Err(m) ==> json_decode_error(s@) == Some(m@),
{
    match serde_json::from_str(s) {
        Ok(v) => Ok(v),
        Err(e) => Err(e.to_string()),
    }
}

/// The marker that the portal puts in the final URL of a rejected login.
pub open spec fn failure_marker() -> Seq<char> {
    "bad=1"@
}

/// The user payload decoded from the page after login, with the JSON text it
/// was decoded from.
pub struct UserData {
    source: String,
    value: serde_json::Value,
}

impl UserData {
    /// The JSON text of the payload.
    pub closed spec fn text(&self) -> Seq<char> {
        self.source@
    }

    pub fn source(&self) -> (r: &str)
        ensures
            r@ == self.text(),
    {
        self.source.as_str()
    }

    pub fn value(&self) -> &serde_json::Value {
        &self.value
    }
}

/// `r` is what decoding the user payload of `html` gives: success exactly
/// when the page holds a payload text that the decoder accepts, and then a
/// payload of that text; the decoder's message when it refuses the text.
pub open spec fn decoded_from(html: Seq<char>, r: Result<UserData, String>) -> bool {
    &&& (r is Ok <==> payload_text(html) is Some && json_accepts(payload_text(html)->Some_0))
    &&& (r matches Ok(d) ==> payload_text(html) == Some(d.text()))
    &&& (payload_text(html) matches Some(t) ==> (r matches Err(m) ==> json_decode_error(t) == Some(
        m@,
    )))
}

/// Decoding the same page twice gives the same outcome: both succeed or both
/// fail, and two payloads hold the same JSON text.
pub proof fn lemma_decode_repeatable(
    html: Seq<char>,
    first: Result<UserData, String>,
    second: Result<UserData, String>,
)
    requires
        decoded_from(html, first),
        decoded_from(html, second),
    ensures
        first is Ok <==> second is Ok,
        first is Ok ==> first->Ok_0.text() == second->Ok_0.text(),
{
}

/// A session with the portal: whether it is logged in, and the user payload
/// that the login brought.
pub struct Edupage {
    is_logged_in: bool,
    data: Option<UserData>,
}

impl Edupage {
    /// The payload is there exactly when the session is logged in.
    #[verifier::type_invariant]
    spec fn paired(&self) -> bool {
        self.is_logged_in == self.data is Some
    }

    pub closed spec fn authenticated(&self) -> bool {
        self.is_logged_in
    }

    pub closed spec fn user_data(&self) -> Option<UserData> {
        self.data
    }

    pub fn new() -> (r: Self)
        ensures
            !r.authenticated(),
            r.user_data() is None,
    {
        Self { is_logged_in: false, data: None }
    }

    pub fn logged_in(&self) -> (r: bool)
        ensures
            r == self.authenticated(),
            r == self.user_data() is Some,
    {
        proof {
            use_type_invariant(self);
        }
        self.is_logged_in
    }

    pub fn data(&self) -> (r: Option<&UserData>)
        ensures
            r matches Some(d) ==> self.user_data() == Some(*d),
            r is None <==> self.user_data() is None,
    {
        match &self.data {
            Some(d) => Some(d),
            None => None,
        }
    }

    /// Decodes the user payload of the page that follows a login.
    pub fn parse_login_data(html: &str) -> (r: Result<UserData, String>)
        ensures
            decoded_from(html@, r),
    {
        let source = match extract_payload_text(html) {
            Some(t) => t,
            None => {
                return Err("The page holds no user payload.".to_string());
            },
        };
        match decode_json(source.as_str()) {
            Ok(value) => Ok(UserData { source, value }),
            Err(m) => Err(m),
        }
    }

    /// Logs the session in with the given payload: both change together.
    fn commit(&mut self, data: UserData)
        ensures
            final(self).authenticated(),
            final(self).user_data() == Some(data),
    {
        *self = Edupage { is_logged_in: true, data: Some(data) };
    }

    /// Judges the portal's answer to the credential form, given the answer's
    /// final URL (after redirects) and its body, or why the body could not be
    /// read. Only a full success changes the session.
    pub fn finish_login(&mut self, final_url: &str, body: Result<String, String>)
        -> (r: Result<(), EdupageError>)
        ensures
            contains(final_url@, failure_marker())
                ==> r matches Err(EdupageError::InvalidCredentials),
            !contains(final_url@, failure_marker())
                ==> (body matches Err(m) ==> r matches Err(EdupageError::HTTPError(e)) && e == m),
            !contains(final_url@, failure_marker()) ==> (body matches Ok(b) ==> (r is Ok <==> (
                payload_text(b@) is Some && json_accepts(payload_text(b@)->Some_0)))),
            !contains(final_url@, failure_marker())
                ==> (body is Ok && r is Err ==> r->Err_0 is ParseError),
            !contains(final_url@, failure_marker()) ==> (body matches Ok(b) ==> (payload_text(b@) matches Some(t) ==> (
                r matches Err(EdupageError::ParseError(m)) ==> json_decode_error(t) == Some(m@)))),
            r is Ok ==> final(self).authenticated(),
            r is Ok ==> (body matches Ok(b) && final(self).user_data() matches Some(d)
                && payload_text(b@) == Some(d.text())),
            r is Err ==> *final(self) == *old(self),
    {
        if is_rejected(final_url) {
            return Err(EdupageError::InvalidCredentials);
        }
        let text = match body {
            Ok(t) => t,
            Err(m) => {
                return Err(EdupageError::HTTPError(m));
            },
        };
        match Edupage::parse_login_data(text.as_str()) {
            Ok(data) => {
                self.commit(data);
                Ok(())
            },
            Err(e) => Err(EdupageError::ParseError(e)),
        }
    }
}

/// Whether a final URL carries the portal's failure marker.
pub fn is_rejected(final_url: &str) -> (r: bool)
    ensures
        r == contains(final_url@, failure_marker()),
{
    let u = chars_of(final_url);
    let marker = chars_of("bad=1");
    proof {
        reveal_strlit("bad=1");
        lemma_contains_first(u@, marker@);
    }
    find_from(&u, &marker, 0).is_some()
}

/// The address of the login page of a portal subdomain.
pub fn login_page_url(subdomain: &str) -> (r: String)
    ensures
        r@ == "https://"@ + subdomain@ + ".edupage.org/login/index.php"@,
{
    let mut u = "https://".to_string();
    u.append(subdomain);
    u.append(".edupage.org/login/index.php");
    u
}

/// The address to which the credential form of a portal subdomain goes.
pub fn login_submit_url(subdomain: &str) -> (r: String)
    ensures
        r@ == "https://"@ + subdomain@ + ".edupage.org/login/edubarLogin.php"@,
{
    let mut u = "https://".to_string();
    u.append(subdomain);
    u.append(".edupage.org/login/edubarLogin.php");
    u
}

/// The credential form to submit, given the login page: its token goes with
/// the username and password. No form comes out of a page without a token.
pub fn submission_form(page: &str, username: &str, password: &str) -> (r: Result<
    String,
    EdupageError,
>)
    ensures
        r matches Ok(f) ==> (token_value(page@) matches Some(t) && f@ == form_encoding(
            credential_fields(username@, password@, t),
        )),
        r is Ok <==> (contains(page@, auth_word()) && token_value(page@) is Some),
        r matches Err(e) ==> (e is InvalidResponse <==> !contains(page@, auth_word())),
        r matches Err(e) ==> e is InvalidResponse || e is ParseError,
{
    let token = extract_csrf_token(page)?;
    let credentials = LoginCredentials::new(username.to_string(), password.to_string(), token);
    credentials.to_form()
}

} // verus!

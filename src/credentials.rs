//! The credential form sent to the portal.
use vstd::prelude::*;

verus! {

/// What the portal's encoder turns a list of named fields into.
pub uninterp spec fn form_encoding(fields: Seq<(Seq<char>, Seq<char>)>) -> Seq<char>;

#[verifier::external_type_specification]
#[verifier::external_body]
pub struct ExUrlEncodeError(serde_urlencoded::ser::Error);

/// Username, password and the anti-forgery token of one submission.
pub struct LoginCredentials {
    pub username: String,
    pub password: String,
    pub csrfauth: String,
}

/// The named fields of a submission, in the order in which they are sent.
pub open spec fn credential_fields(username: Seq<char>, password: Seq<char>, csrfauth: Seq<char>) -> Seq<
    (Seq<char>, Seq<char>),
> {
    seq![("username"@, username), ("password"@, password), ("csrfauth"@, csrfauth)]
}

/// Relies on serde_urlencoded::to_string over a sequence of string pairs:
/// pairs of strings always encode, and the body is the encoding of those
/// pairs, in order.
#[verifier::external_body]
fn urlencode(c: &LoginCredentials) -> (r: Result<String, serde_urlencoded::ser::Error>)
    ensures
        r is Ok,
        r matches Ok(s) ==> s@ == form_encoding(
            credential_fields(c.username@, c.password@, c.csrfauth@),
        ),
{
    serde_urlencoded::to_string(
        [
            ("username", c.username.as_str()),
            ("password", c.password.as_str()),
            ("csrfauth", c.csrfauth.as_str()),
        ],
    )
}

impl LoginCredentials {
    pub fn new(username: String, password: String, csrfauth: String) -> (r: Self)
        ensures
            r.username == username,
            r.password == password,
            r.csrfauth == csrfauth,
    {
        Self { username, password, csrfauth }
    }

    /// The form-url-encoded body that submits these credentials. Text fields
    /// always encode; an encoder failure would come back as
    /// `SerializationError`.
    pub fn to_form(&self) -> (r: Result<String, crate::error::EdupageError>)
        ensures
            r matches Ok(s) && s@ == form_encoding(
                credential_fields(self.username@, self.password@, self.csrfauth@),
            ),
    {
        match urlencode(self) {
            Ok(s) => Ok(s),
            Err(e) => Err(crate::error::EdupageError::SerializationError(e.to_string())),
        }
    }
}

} // verus!

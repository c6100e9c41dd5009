//! The decisions of the login handshake.

use vstd::prelude::*;

verus! {

/// Why a session could not be had.
#[derive(Clone, Copy, Debug, PartialEq, Eq, Structural)]
pub enum SessionError {
    /// The login page carries no anti-forgery token.
    AuthTokenMissing,
    /// The login answer had a non-success status.
    LoginRejected,
}

/// A status in the success range 200..=299.
pub open spec fn is_success(status: u16) -> bool {
    200 <= status <= 299
}

/// Whether an HTTP status means success.
pub fn success_status(status: u16) -> (r: bool)
    ensures
        r == is_success(status),
{
    200 <= status && status <= 299
}

/// The anti-forgery token, from the content of its meta attribute if the
/// login page has one.
pub fn csrf_token(content: Option<String>) -> (r: Result<String, SessionError>)
    ensures
        match content {
            Some(t) => r matches Ok(s) && s@ == t@,
            None => r == Err::<String, SessionError>(SessionError::AuthTokenMissing),
        },
{
    match content {
        Some(t) => Ok(t),
        None => Err(SessionError::AuthTokenMissing),
    }
}

/// The authenticated user name once the login answer came back with
/// `status`.
pub fn login_outcome(status: u16, username: String) -> (r: Result<String, SessionError>)
    ensures
        is_success(status) ==> (r matches Ok(s) && s@ == username@),
        !is_success(status) ==> r == Err::<String, SessionError>(SessionError::LoginRejected),
{
    if success_status(status) {
        Ok(username)
    } else {
        Err(SessionError::LoginRejected)
    }
}

/// The fields of the login form, in order.
pub open spec fn login_fields(token: Seq<char>, user: Seq<char>, pass: Seq<char>) -> Seq<
    (Seq<char>, Seq<char>),
> {
    seq![
        ("utf8"@, "\u{2713}"@),
        ("authenticity_token"@, token),
        ("user[login]"@, user),
        ("user[password]"@, pass),
        ("commit"@, "Log in"@),
    ]
}

/// The login form: the token, the credentials and the fixed fields.
pub fn login_form(token: &String, user: &String, pass: &String) -> (r: Vec<(String, String)>)
    ensures
        r@.map_values(|p: (String, String)| (p.0@, p.1@)) == login_fields(token@, user@, pass@),
{
    let mut v: Vec<(String, String)> = Vec::new();
    v.push((String::from_str("utf8"), String::from_str("\u{2713}")));
    v.push((String::from_str("authenticity_token"), token.clone()));
    v.push((String::from_str("user[login]"), user.clone()));
    v.push((String::from_str("user[password]"), pass.clone()));
    v.push((String::from_str("commit"), String::from_str("Log in")));
    assert(v@.map_values(|p: (String, String)| (p.0@, p.1@)) =~= login_fields(token@, user@, pass@));
    v
}

} // verus!

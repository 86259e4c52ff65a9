//! Why somebody is not let in.

use vstd::prelude::*;

verus! {

broadcast use vstd::string::group_string_axioms;

/// Why somebody is not let in.
#[derive(Debug)]
pub enum AuthError {
    /// The password is wrong.
    InvalidCredentials,
    /// There is no session, or its time is over.
    Unauthorized,
    /// There were too many attempts.
    RateLimited,
    /// Something failed in the server.
    Internal(String),
}

impl AuthError {
    /// The error as people read it.
    pub open spec fn text(self) -> Seq<char> {
        match self {
            AuthError::InvalidCredentials => "Invalid credentials"@,
            AuthError::Unauthorized => "Unauthorized"@,
            AuthError::RateLimited => "Rate limited"@,
            AuthError::Internal(m) => "Internal error: "@ + m@,
        }
    }

    /// What the answer to the request says.
    pub open spec fn answer(self) -> Seq<char> {
        match self {
            AuthError::InvalidCredentials => "Invalid credentials"@,
            AuthError::Unauthorized => "Session expired or not found"@,
            AuthError::RateLimited => "Rate limited, try again later"@,
            AuthError::Internal(m) => m@,
        }
    }

    /// The error as a line for people.
    pub fn message(&self) -> (r: String)
        ensures
            r@ == self.text(),
    {
        match self {
            AuthError::InvalidCredentials => "Invalid credentials".to_owned(),
            AuthError::Unauthorized => "Unauthorized".to_owned(),
            AuthError::RateLimited => "Rate limited".to_owned(),
            AuthError::Internal(m) => {
                let mut s = "Internal error: ".to_owned();
                s.append(m.as_str());
                s
            },
        }
    }

    /// The status and the text of the answer to the request.
    pub fn response(&self) -> (r: (u16, String))
        ensures
            r.0 == (match *self {
                AuthError::InvalidCredentials => 401u16,
                AuthError::Unauthorized => 401u16,
                AuthError::RateLimited => 429u16,
                AuthError::Internal(_) => 500u16,
            }),
            r.1@ == self.answer(),
    {
        match self {
            AuthError::InvalidCredentials => (401, "Invalid credentials".to_owned()),
            AuthError::Unauthorized => (401, "Session expired or not found".to_owned()),
            AuthError::RateLimited => (429, "Rate limited, try again later".to_owned()),
            AuthError::Internal(m) => (500, m.clone()),
        }
    }
}

/// Whoever is not let in is told so with the status 401, with 429 after too many attempts, and with 500
/// where the server failed.
pub proof fn law_refusals_have_their_status(e: &AuthError, r: (u16, String))
    requires
        AuthError::response.ensures((e,), r),
    ensures
        e is InvalidCredentials || e is Unauthorized ==> r.0 == 401,
        e is RateLimited ==> r.0 == 429,
        e is Internal ==> r.0 == 500,
        e matches AuthError::Internal(m) ==> r.1@ == m@,
{
}

/// An error says what happened, to people and in the answer to the request.
pub proof fn law_refusals_say_why(e: &AuthError, m: String, r: (u16, String))
    requires
        AuthError::message.ensures((e,), m),
        AuthError::response.ensures((e,), r),
    ensures
        e is InvalidCredentials ==> m@ == "Invalid credentials"@ && r.1@ == "Invalid credentials"@,
        e is Unauthorized ==> m@ == "Unauthorized"@ && r.1@ == "Session expired or not found"@,
        e is RateLimited ==> m@ == "Rate limited"@ && r.1@ == "Rate limited, try again later"@,
        e matches AuthError::Internal(t) ==> m@ == "Internal error: "@ + t@,
{
}

} // verus!

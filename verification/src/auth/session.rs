//! The session kept after signing in.
use vstd::prelude::*;

verus! {

/// A signed-in session.
#[derive(Debug, Clone)]
pub struct AuthSession {
    pub session_token: String,
    pub hcom_api_url: String,
    pub heron_auth_url: String,
    pub expires_at: Option<String>,
}

/// The token of the stored session, where there is one.
pub fn get_session_token(session: Option<AuthSession>) -> (res: Option<String>)
    ensures
        match session {
            Some(s) => res matches Some(t) && t@ == s.session_token@,
            None => res is None,
        },
{
    match session {
        Some(s) => Some(s.session_token),
        None => None,
    }
}

/// Whether a session is stored.
pub fn has_session(session: &Option<AuthSession>) -> (res: bool)
    ensures
        res == session is Some,
{
    session.is_some()
}

} // verus!

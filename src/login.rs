use vstd::prelude::*;

verus! {

/// Credentials presented at login.
#[derive(PartialEq, Eq, Debug)]
pub struct LoginRequest {
    pub login: String,
    pub password: String,
}

/// A refresh token presented for a new pair of tokens.
#[derive(PartialEq, Eq, Debug)]
pub struct RefreshRequest {
    pub refresh_token: String,
}

/// The pair of tokens handed out at login and refresh.
#[derive(PartialEq, Eq, Debug)]
pub struct Response {
    pub access_token: String,
    pub refresh_token: String,
}

} // verus!

//! What user requests carry and what they are answered with.

use vstd::prelude::*;

verus! {

/// The envelope of a user request or answer.
#[derive(Clone, Debug)]
pub struct UserBody<T> {
    pub user: T,
}

/// What a login states.
#[derive(Clone, Debug)]
pub struct LoginUser {
    pub email: String,
    pub password: String,
}

/// The profile of the current user, with a token for the session.
#[derive(Clone, Debug)]
pub struct UserResponse {
    pub token: String,
    pub email: String,
    pub first_name: String,
    pub last_name: String,
}

/// The token that answers a registration or a login.
#[derive(Clone, Debug)]
pub struct UserAuthResponse {
    pub token: String,
}

} // verus!

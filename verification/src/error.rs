//! The closed set of failures, and how each appears to a client.

use vstd::prelude::*;

verus! {

/// Why a token was refused. The three causes are told apart inside the
/// crate only: a client sees `Unauthorized` for each of them.
#[derive(Clone, Copy, Debug, PartialEq, Eq, Structural)]
pub enum TokenError {
    /// The token is not three well-encoded segments with the expected content.
    Malformed,
    /// The signature is not the one that the secret gives.
    BadSignature,
    /// The expiry is not after the present moment.
    Expired,
}

/// What went wrong inside the service.
#[derive(Clone, Copy, Debug, PartialEq, Eq, Structural)]
pub enum Fault {
    /// The signing secret is empty.
    SigningKey,
    /// The token lifetime is not positive.
    TokenLifetime,
    /// The hashing cost parameters are out of range.
    CostParameters,
    /// A stored credential cannot be read, or names another algorithm.
    CredentialEncoding,
    /// The key-derivation function refused its input.
    Hashing,
    /// The worker that ran a password operation failed.
    Worker,
    /// A collaborator outside this crate reported a failure.
    Collaborator,
}

/// Every failure that a request can end in.
#[derive(Clone, Copy, Debug, PartialEq, Eq, Structural)]
pub enum Error {
    Unauthorized,
    UserNotFound,
    EmployeeNotFound,
    Forbidden,
    NotFound,
    Database,
    Internal(Fault),
    PositionNotFound,
}

/// What a client receives for a failure: the status code, the challenge
/// that tells it how to authenticate again, and a short message.
#[derive(Clone, Debug)]
pub struct Response {
    pub status: u16,
    pub challenge: Option<String>,
    pub body: String,
}

/// The status code of a failure.
pub open spec fn status_of(error: Error) -> u16 {
    match error {
        Error::Unauthorized | Error::UserNotFound => 401,
        Error::NotFound | Error::EmployeeNotFound | Error::PositionNotFound => 404,
        Error::Database | Error::Internal(_) => 500,
        Error::Forbidden => 403,
    }
}

/// The message of a failure. It names no cause that a client could use.
pub open spec fn message_of(error: Error) -> Seq<char> {
    match error {
        Error::Unauthorized => "Authentication required"@,
        Error::UserNotFound => "User with these credentials not found"@,
        Error::EmployeeNotFound => "Employee ID does not exist"@,
        Error::Forbidden => "User may not perform that action"@,
        Error::NotFound => "Request path not found"@,
        Error::Database => "An error occurred with the database"@,
        Error::Internal(_) => "An internal server error occurred"@,
        Error::PositionNotFound => "Position ID does not exist"@,
    }
}

/// The challenge that accompanies a failure: the scheme `Token` for
/// `Unauthorized`, and none for any other failure.
pub open spec fn challenge_of(error: Error) -> Option<Seq<char>> {
    match error {
        Error::Unauthorized => Some("Token"@),
        _ => None,
    }
}

/// The text of a string that may be absent.
pub open spec fn text_of(text: Option<String>) -> Option<Seq<char>> {
    match text {
        Some(t) => Some(t@),
        None => None,
    }
}

impl Default for Error {
    fn default() -> (r: Error)
        ensures
            r == Error::NotFound,
    {
        Error::NotFound
    }
}

impl TokenError {
    /// The failure that a client sees for a refused token: always
    /// `Unauthorized`, whatever the cause.
    pub fn outward(&self) -> (r: Error)
        ensures
            r == Error::Unauthorized,
    {
        Error::Unauthorized
    }
}

impl Error {
    /// The status code that the failure is answered with.
    pub fn status_code(&self) -> (code: u16)
        ensures
            code == status_of(*self),
    {
        match self {
            Error::Unauthorized | Error::UserNotFound => 401,
            Error::NotFound | Error::EmployeeNotFound | Error::PositionNotFound => 404,
            Error::Database | Error::Internal(_) => 500,
            Error::Forbidden => 403,
        }
    }

    /// The message that the failure is answered with.
    pub fn message(&self) -> (text: String)
        ensures
            text@ == message_of(*self),
    {
        match self {
            Error::Unauthorized => "Authentication required".to_string(),
            Error::UserNotFound => "User with these credentials not found".to_string(),
            Error::EmployeeNotFound => "Employee ID does not exist".to_string(),
            Error::Forbidden => "User may not perform that action".to_string(),
            Error::NotFound => "Request path not found".to_string(),
            Error::Database => "An error occurred with the database".to_string(),
            Error::Internal(_) => "An internal server error occurred".to_string(),
            Error::PositionNotFound => "Position ID does not exist".to_string(),
        }
    }

    /// What a client receives for the failure. `Unauthorized`, and nothing
    /// else, carries the challenge.
    pub fn into_response(self) -> (response: Response)
        ensures
            response.status == status_of(self),
            response.body@ == message_of(self),
            text_of(response.challenge) == challenge_of(self),
    {
        let challenge: Option<String> = match self {
            Error::Unauthorized => Some("Token".to_string()),
            _ => None,
        };
        Response { status: self.status_code(), challenge, body: self.message() }
    }
}

} // verus!

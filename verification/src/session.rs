//! The decisions of registration, login and session renewal.
//!
//! Each function takes what was read from the account store as plain
//! values and says what the request comes to; reading and writing the store
//! is the caller's part.

use vstd::prelude::*;
use crate::claims::Claims;
use crate::error::Error;
use crate::extractor::{bearer_header, extraction, lemma_bearer_roundtrip};
use crate::password::{verification, verify_credential};
use crate::principal::Principal;
use crate::token::{issued, lemma_issue_then_validate, lemma_issued_is_not_empty, TokenCodec};

verus! {

/// What the account store holds of a user for a login.
#[derive(Clone, Debug)]
pub struct Account {
    pub id: u128,
    pub password_hash: String,
}

/// The token that a session of `user_id` starting at `now` is given.
pub open spec fn session_token(secret: Seq<u8>, ttl: int, user_id: u128, now: int) -> Seq<u8> {
    issued(secret, Claims { subject: user_id, expiry: (now + ttl) as i64 })
}

/// What a login comes to: an unknown user, a refused password or an
/// internal fault, or else a token for the account.
pub open spec fn login_result(
    secret: Seq<u8>,
    ttl: int,
    account: Option<Account>,
    password: Seq<char>,
    now: int,
) -> Result<Seq<u8>, Error> {
    match account {
        None => Err(Error::UserNotFound),
        Some(found) => match verification(password, found.password_hash@) {
            Err(error) => Err(error),
            Ok(()) => Ok(session_token(secret, ttl, found.id, now)),
        },
    }
}

/// What renewing a session comes to: a fresh token where the account still
/// exists, and `Unauthorized` where it is gone.
pub open spec fn renewal_result(
    secret: Seq<u8>,
    ttl: int,
    principal: Principal,
    account_exists: bool,
    now: int,
) -> Result<Seq<u8>, Error> {
    if account_exists {
        Ok(session_token(secret, ttl, principal.user_id, now))
    } else {
        Err(Error::Unauthorized)
    }
}

/// The bytes of a token, or the failure in its place.
pub open spec fn token_view(r: Result<Vec<u8>, Error>) -> Result<Seq<u8>, Error> {
    match r {
        Ok(token) => Ok(token@),
        Err(error) => Err(error),
    }
}

/// Decides a login from the account found for the stated email, if any.
pub fn login(codec: &TokenCodec, account: Option<&Account>, password: &str, now: i64) -> (r:
    Result<Vec<u8>, Error>)
    requires
        now + codec.ttl() <= i64::MAX,
    ensures
        token_view(r) == login_result(
            codec.secret(),
            codec.ttl(),
            match account {
                Some(found) => Some(*found),
                None => None,
            },
            password@,
            now as int,
        ),
{
    let found: &Account = match account {
        Some(found) => found,
        None => { return Err(Error::UserNotFound); },
    };
    match verify_credential(password, found.password_hash.as_str()) {
        Err(error) => Err(error),
        Ok(()) => Ok(codec.issue(Principal { user_id: found.id }, now)),
    }
}

/// Decides the renewal of a session after the account was looked up.
pub fn renew(codec: &TokenCodec, principal: Principal, account_exists: bool, now: i64) -> (r:
    Result<Vec<u8>, Error>)
    requires
        now + codec.ttl() <= i64::MAX,
    ensures
        token_view(r) == renewal_result(
            codec.secret(),
            codec.ttl(),
            principal,
            account_exists,
            now as int,
        ),
{
    if account_exists {
        Ok(codec.issue(principal, now))
    } else {
        Err(Error::Unauthorized)
    }
}

/// The employee that a registration names, before the employee is looked
/// up: a registration that names none is refused.
pub fn registration_employee(employee_id: Option<u128>) -> (r: Result<u128, Error>)
    ensures
        r == match employee_id {
            Some(id) => Ok::<u128, Error>(id),
            None => Err::<u128, Error>(Error::EmployeeNotFound),
        },
{
    match employee_id {
        Some(id) => Ok(id),
        None => Err(Error::EmployeeNotFound),
    }
}

/// Decides a registration after the employee was looked up.
pub fn confirm_employee(employee_exists: bool) -> (r: Result<(), Error>)
    ensures
        r == if employee_exists {
            Ok::<(), Error>(())
        } else {
            Err::<(), Error>(Error::EmployeeNotFound)
        },
{
    if employee_exists {
        Ok(())
    } else {
        Err(Error::EmployeeNotFound)
    }
}

/// Whether a profile update changes nothing, so that the store need not be touched.
pub fn is_empty_update(
    email: &Option<String>,
    password: &Option<String>,
    employee_id: &Option<u128>,
) -> (r: bool)
    ensures
        r == (email is None && password is None && employee_id is None),
{
    email.is_none() && password.is_none() && employee_id.is_none()
}

/// The token of a session authenticates its user from the moment of issue
/// until one lifetime later, while the account exists; from then on, and
/// once the account is gone, it is refused as `Unauthorized`.
pub proof fn lemma_session_lifetime(
    secret: Seq<u8>,
    ttl: int,
    user_id: u128,
    issued_at: int,
    now: int,
    accounts: Set<u128>,
)
    requires
        i64::MIN <= issued_at + ttl <= i64::MAX,
    ensures
        extraction(
            secret,
            Some(bearer_header(session_token(secret, ttl, user_id, issued_at))),
            now,
            accounts,
        ) == if now < issued_at + ttl && accounts.contains(user_id) {
            Ok::<Principal, Error>(Principal { user_id })
        } else {
            Err::<Principal, Error>(Error::Unauthorized)
        },
{
    let claims = Claims { subject: user_id, expiry: (issued_at + ttl) as i64 };
    let token = issued(secret, claims);
    lemma_issue_then_validate(secret, claims, now);
    lemma_issued_is_not_empty(secret, claims);
    lemma_bearer_roundtrip(token);
}

} // verus!

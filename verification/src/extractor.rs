//! From a request's credential header to the principal behind it.
//!
//! An extraction is a function of the header, the present moment and the
//! set of accounts that exist. It runs in two steps, because the accounts
//! are kept elsewhere: `authenticate` reads the header and validates the
//! token, the caller looks the account up, and `confirm` decides on the
//! answer.

use vstd::prelude::*;
use vstd::slice::slice_subrange;
use crate::error::{challenge_of, status_of, Error};
use crate::principal::Principal;
use crate::token::{validation, TokenCodec};

verus! {

/// The scheme and the space that come before the token: `Bearer `.
pub open spec fn bearer_prefix() -> Seq<u8> {
    seq!['B' as u8, 'e' as u8, 'a' as u8, 'r' as u8, 'e' as u8, 'r' as u8, ' ' as u8]
}

/// The token that a header value carries: what follows `Bearer `, where
/// that is not empty.
pub open spec fn bearer_token(header: Seq<u8>) -> Option<Seq<u8>> {
    if header.len() > 7 && header.subrange(0, 7) == bearer_prefix() {
        Some(header.subrange(7, header.len() as int))
    } else {
        None
    }
}

/// Whom a header authenticates at the moment `now`. Every refusal is the
/// same `Unauthorized`, whatever its cause.
pub open spec fn authentication(secret: Seq<u8>, header: Option<Seq<u8>>, now: int) -> Result<
    Principal,
    Error,
> {
    match header {
        None => Err(Error::Unauthorized),
        Some(value) => match bearer_token(value) {
            None => Err(Error::Unauthorized),
            Some(token) => match validation(secret, token, now) {
                Ok(principal) => Ok(principal),
                Err(_) => Err(Error::Unauthorized),
            },
        },
    }
}

/// What the lookup of an authenticated principal's account comes to.
pub open spec fn confirmation(principal: Principal, account_exists: bool) -> Result<
    Principal,
    Error,
> {
    if account_exists {
        Ok(principal)
    } else {
        Err(Error::Unauthorized)
    }
}

/// The principal of a request, given the accounts that exist.
pub open spec fn extraction(
    secret: Seq<u8>,
    header: Option<Seq<u8>>,
    now: int,
    accounts: Set<u128>,
) -> Result<Principal, Error> {
    match authentication(secret, header, now) {
        Ok(principal) => confirmation(principal, accounts.contains(principal.user_id)),
        Err(error) => Err(error),
    }
}

/// The bytes of a header that may be absent.
pub open spec fn header_view(header: Option<&[u8]>) -> Option<Seq<u8>> {
    match header {
        Some(value) => Some(value@),
        None => None,
    }
}

/// Reads the token out of a header value.
pub fn read_bearer(header: &[u8]) -> (r: Option<&[u8]>)
    ensures
        header_view(r) == bearer_token(header@),
{
    let n: usize = header.len();
    if n <= 7 {
        return None;
    }
    if header[0] == 66 && header[1] == 101 && header[2] == 97 && header[3] == 114 && header[4]
        == 101 && header[5] == 114 && header[6] == 32 {
        assert(header@.subrange(0, 7) =~= bearer_prefix());
        Some(slice_subrange(header, 7, n))
    } else {
        assert(header@.subrange(0, 7) != bearer_prefix()) by {
            let front = header@.subrange(0, 7);
            assert(front[0] == header@[0] && front[1] == header@[1] && front[2] == header@[2]
                && front[3] == header@[3] && front[4] == header@[4] && front[5] == header@[5]
                && front[6] == header@[6]);
        }
        None
    }
}

/// The first step of an extraction: reads the header and validates its token.
pub fn authenticate(codec: &TokenCodec, header: Option<&[u8]>, now: i64) -> (r: Result<
    Principal,
    Error,
>)
    ensures
        r == authentication(codec.secret(), header_view(header), now as int),
{
    let value: &[u8] = match header {
        Some(value) => value,
        None => { return Err(Error::Unauthorized); },
    };
    let token: &[u8] = match read_bearer(value) {
        Some(token) => token,
        None => { return Err(Error::Unauthorized); },
    };
    match codec.validate(token, now) {
        Ok(principal) => Ok(principal),
        Err(cause) => Err(cause.outward()),
    }
}

/// The last step of an extraction: a principal whose account is gone is
/// refused like any other unauthenticated request.
pub fn confirm(principal: Principal, account_exists: bool) -> (r: Result<Principal, Error>)
    ensures
        r == confirmation(principal, account_exists),
{
    if account_exists {
        Ok(principal)
    } else {
        Err(Error::Unauthorized)
    }
}

/// The identifiers that a list of accounts holds.
pub open spec fn account_set(accounts: Seq<u128>) -> Set<u128> {
    Set::new(|id: u128| accounts.contains(id))
}

fn is_listed(accounts: &[u128], id: u128) -> (r: bool)
    ensures
        r == account_set(accounts@).contains(id),
{
    let n: usize = accounts.len();
    let mut i: usize = 0;
    while i < n
        invariant
            i <= n,
            n == accounts@.len(),
            forall|k: int| 0 <= k < i ==> accounts@[k] != id,
        decreases n - i,
    {
        if accounts[i] == id {
            return true;
        }
        i = i + 1;
    }
    false
}

/// The whole extraction against a list of the accounts that exist.
pub fn extract(codec: &TokenCodec, header: Option<&[u8]>, now: i64, accounts: &[u128]) -> (r:
    Result<Principal, Error>)
    ensures
        r == extraction(codec.secret(), header_view(header), now as int, account_set(accounts@)),
{
    match authenticate(codec, header, now) {
        Ok(principal) => confirm(principal, is_listed(accounts, principal.user_id)),
        Err(error) => Err(error),
    }
}

/// An extraction that fails fails as `Unauthorized`: status 401 with the
/// challenge, never an internal error.
pub proof fn lemma_refusal_is_unauthorized(
    secret: Seq<u8>,
    header: Option<Seq<u8>>,
    now: int,
    accounts: Set<u128>,
)
    requires
        extraction(secret, header, now, accounts) is Err,
    ensures
        extraction(secret, header, now, accounts) == Err::<Principal, Error>(Error::Unauthorized),
        status_of(Error::Unauthorized) == 401,
        challenge_of(Error::Unauthorized) is Some,
{
}

/// A request without a credential header is refused as `Unauthorized`.
pub proof fn lemma_missing_header(secret: Seq<u8>, now: int, accounts: Set<u128>)
    ensures
        extraction(secret, None, now, accounts) == Err::<Principal, Error>(Error::Unauthorized),
{
}

/// A principal comes out of an extraction only if its account exists and
/// the header carries a token that is worth that principal.
pub proof fn lemma_extracted_is_validated(
    secret: Seq<u8>,
    header: Option<Seq<u8>>,
    now: int,
    accounts: Set<u128>,
)
    requires
        extraction(secret, header, now, accounts) is Ok,
    ensures
        header is Some,
        bearer_token(header->0) is Some,
        validation(secret, bearer_token(header->0)->0, now) == Ok::<
            Principal,
            crate::error::TokenError,
        >(extraction(secret, header, now, accounts)->Ok_0),
        accounts.contains(extraction(secret, header, now, accounts)->Ok_0.user_id),
{
}

/// The header value that carries a token: the scheme, a space and the token.
pub open spec fn bearer_header(token: Seq<u8>) -> Seq<u8> {
    bearer_prefix() + token
}

/// A header made from a token that is not empty carries that token.
pub proof fn lemma_bearer_roundtrip(token: Seq<u8>)
    requires
        token.len() > 0,
    ensures
        bearer_token(bearer_header(token)) == Some(token),
{
    let header = bearer_header(token);
    assert(header.subrange(0, 7) =~= bearer_prefix());
    assert(header.subrange(7, header.len() as int) =~= token);
}

} // verus!

use management_company_backend::error::Error;
use management_company_backend::extractor::{authenticate, confirm, extract, read_bearer};
use management_company_backend::principal::Principal;
use management_company_backend::token::TokenCodec;

const ALICE: Principal = Principal { user_id: 0x67e55044_10b1_426f_9247_bb680e5fe0c8 };
const START: i64 = 1_700_000_000;
const DAY: i64 = 86_400;

fn day_codec() -> TokenCodec {
    TokenCodec::new(b"a signing secret known to the server".to_vec(), DAY).unwrap()
}

fn bearer(token: &[u8]) -> Vec<u8> {
    let mut header = b"Bearer ".to_vec();
    header.extend_from_slice(token);
    header
}

#[test]
fn reads_the_token_after_the_scheme() {
    assert_eq!(read_bearer(b"Bearer abc.def.ghi"), Some(&b"abc.def.ghi"[..]));
    assert_eq!(read_bearer(b"Bearer x"), Some(&b"x"[..]));
    assert_eq!(read_bearer(b"Bearer  x"), Some(&b" x"[..]));
}

#[test]
fn refuses_a_header_of_another_form() {
    for header in [
        &b""[..],
        b"Bearer",
        b"Bearer ",
        b"bearer abc",
        b"BEARER abc",
        b"Token abc",
        b"Basic dXNlcjpwYXNz",
        b"Bearerabc",
        b" Bearer abc",
        b"abc",
    ] {
        assert_eq!(read_bearer(header), None, "{:?}", String::from_utf8_lossy(header));
    }
}

#[test]
fn a_request_without_a_header_is_unauthorized_with_the_challenge() {
    let codec = day_codec();
    let outcome = extract(&codec, None, START, &[ALICE.user_id]);
    assert_eq!(outcome, Err(Error::Unauthorized));
    let response = outcome.unwrap_err().into_response();
    assert_eq!(response.status, 401);
    assert_eq!(response.challenge.as_deref(), Some("Token"));
    assert_eq!(response.body, "Authentication required");
}

#[test]
fn a_valid_token_of_an_existing_account_gives_its_principal() {
    let codec = day_codec();
    let header = bearer(&codec.issue(ALICE, START));
    assert_eq!(authenticate(&codec, Some(&header), START + 10), Ok(ALICE));
    assert_eq!(extract(&codec, Some(&header), START + 10, &[1, ALICE.user_id, 3]), Ok(ALICE));
}

#[test]
fn an_account_that_is_gone_is_unauthorized() {
    let codec = day_codec();
    let header = bearer(&codec.issue(ALICE, START));
    assert_eq!(extract(&codec, Some(&header), START + 10, &[]), Err(Error::Unauthorized));
    assert_eq!(extract(&codec, Some(&header), START + 10, &[1, 2, 3]), Err(Error::Unauthorized));
    assert_eq!(confirm(ALICE, false), Err(Error::Unauthorized));
    assert_eq!(confirm(ALICE, true), Ok(ALICE));
}

#[test]
fn every_refusal_is_the_same_unauthorized() {
    let codec = day_codec();
    let token = codec.issue(ALICE, START);
    let accounts = [ALICE.user_id];
    let mut forged = token.clone();
    let last = forged.len() - 1;
    forged[last] ^= 1;
    let other = TokenCodec::new(b"another secret".to_vec(), DAY).unwrap().issue(ALICE, START);
    let expired = (bearer(&token), START + DAY);
    for (header, now) in [
        (bearer(&forged), START),
        (bearer(&other), START),
        (bearer(b"not a token"), START),
        (bearer(b"a.b.c"), START),
        (token.clone(), START),
        (b"Basic dXNlcjpwYXNz".to_vec(), START),
        (b"Bearer ".to_vec(), START),
        expired,
    ] {
        assert_eq!(extract(&codec, Some(&header), now, &accounts), Err(Error::Unauthorized));
    }
}

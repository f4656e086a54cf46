use management_company_backend::error::{Error, Fault};
use management_company_backend::extractor::extract;
use management_company_backend::password::CredentialHasher;
use management_company_backend::principal::Principal;
use management_company_backend::session::{
    confirm_employee, is_empty_update, login, registration_employee, renew, Account,
};
use management_company_backend::token::TokenCodec;

const OPENED: i64 = 1_700_000_000;
const LIFETIME: i64 = 3_600;

fn hour_codec() -> TokenCodec {
    TokenCodec::new(b"a signing secret known to the server".to_vec(), LIFETIME).unwrap()
}

fn header(token: &[u8]) -> Vec<u8> {
    let mut value = b"Bearer ".to_vec();
    value.extend_from_slice(token);
    value
}

#[test]
fn register_login_use_and_expire() {
    let codec = hour_codec();
    let hasher = CredentialHasher::new(256, 2, 1).unwrap();

    // register: the employee is named and exists, the password is hashed and stored
    let employee = registration_employee(Some(0x11)).unwrap();
    assert_eq!(employee, 0x11);
    assert_eq!(confirm_employee(true), Ok(()));
    let account = Account { id: 0xa11ce, password_hash: hasher.hash("Secr3t!").unwrap() };
    let accounts = [account.id];

    // login with the right password gives a token
    let token = login(&codec, Some(&account), "Secr3t!", OPENED).unwrap();

    // login with a wrong password is refused
    assert_eq!(login(&codec, Some(&account), "wrong", OPENED), Err(Error::Unauthorized));

    // the token fetches the current profile
    let value = header(&token);
    let principal = extract(&codec, Some(&value), OPENED + 60, &accounts).unwrap();
    assert_eq!(principal, Principal { user_id: account.id });
    let fresh = renew(&codec, principal, true, OPENED + 60).unwrap();
    assert_eq!(extract(&codec, Some(&header(&fresh)), OPENED + LIFETIME + 30, &accounts), Ok(principal));

    // once the lifetime has passed, the first token is refused
    assert_eq!(extract(&codec, Some(&value), OPENED + LIFETIME - 1, &accounts), Ok(principal));
    assert_eq!(extract(&codec, Some(&value), OPENED + LIFETIME, &accounts), Err(Error::Unauthorized));
    assert_eq!(extract(&codec, Some(&value), OPENED + LIFETIME + 1, &accounts), Err(Error::Unauthorized));
}

#[test]
fn login_of_an_unknown_user_is_refused() {
    assert_eq!(login(&hour_codec(), None, "Secr3t!", OPENED), Err(Error::UserNotFound));
}

#[test]
fn login_with_a_corrupt_credential_is_an_internal_fault() {
    let account = Account { id: 7, password_hash: "not a credential".to_string() };
    assert_eq!(
        login(&hour_codec(), Some(&account), "Secr3t!", OPENED),
        Err(Error::Internal(Fault::CredentialEncoding))
    );
}

#[test]
fn login_gives_the_token_that_the_codec_issues() {
    let codec = hour_codec();
    let hasher = CredentialHasher::new(256, 2, 1).unwrap();
    let account = Account { id: 7, password_hash: hasher.hash("Secr3t!").unwrap() };
    assert_eq!(
        login(&codec, Some(&account), "Secr3t!", OPENED),
        Ok(codec.issue(Principal { user_id: 7 }, OPENED))
    );
}

#[test]
fn renewal_needs_the_account() {
    let codec = hour_codec();
    let principal = Principal { user_id: 7 };
    assert_eq!(renew(&codec, principal, true, OPENED), Ok(codec.issue(principal, OPENED)));
    assert_eq!(renew(&codec, principal, false, OPENED), Err(Error::Unauthorized));
}

#[test]
fn registration_needs_an_employee_that_exists() {
    assert_eq!(registration_employee(None), Err(Error::EmployeeNotFound));
    assert_eq!(registration_employee(Some(5)), Ok(5));
    assert_eq!(confirm_employee(false), Err(Error::EmployeeNotFound));
    assert_eq!(confirm_employee(true), Ok(()));
}

#[test]
fn an_update_is_empty_where_it_states_nothing() {
    assert!(is_empty_update(&None, &None, &None));
    assert!(!is_empty_update(&Some("a@b.c".to_string()), &None, &None));
    assert!(!is_empty_update(&None, &Some(String::new()), &None));
    assert!(!is_empty_update(&None, &None, &Some(0)));
}

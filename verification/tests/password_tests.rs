use argon2::{Argon2, PasswordHash, PasswordVerifier};
use management_company_backend::error::{Error, Fault};
use management_company_backend::password::{
    classify, credential_from, declares_parallelism_within, hash_password, verify_credential,
    verify_password, CredentialHasher, Verdict,
};

const KNOWN: &str = "$argon2id$v=19$m=256,t=2,p=1$c29tZXNhbHQ$nf65EOgLrQMR/uIPnA4rEsF5h7TKyQwu9U1bMCHGi/4";

fn light() -> CredentialHasher {
    CredentialHasher::new(256, 2, 1).unwrap()
}

#[test]
fn derives_the_reference_credential() {
    assert_eq!(light().hash_with_salt("password", "c29tZXNhbHQ"), Ok(KNOWN.to_string()));
}

#[test]
fn verifies_the_reference_credential() {
    assert_eq!(verify_credential("password", KNOWN), Ok(()));
    assert_eq!(verify_credential("sassword", KNOWN), Err(Error::Unauthorized));
    assert!(light().verify("password", KNOWN));
    assert!(!light().verify("sassword", KNOWN));
}

#[test]
fn verification_reads_the_costs_from_the_credential() {
    let heavy = "$argon2id$v=19$m=65536,t=2,p=1$c29tZXNhbHQ$CTFhFdXPJO1aFaMaO6Mm5c8y7cJHAph8ArZWb2GRPPc";
    assert!(light().verify("password", heavy));
    assert!(!light().verify("Password", heavy));
}

#[test]
fn hashing_twice_gives_two_credentials_that_both_verify() {
    let hasher = light();
    let first = hasher.hash("Secr3t!").unwrap();
    let second = hasher.hash("Secr3t!").unwrap();
    assert_ne!(first, second);
    assert!(hasher.verify("Secr3t!", &first));
    assert!(hasher.verify("Secr3t!", &second));
}

#[test]
fn another_password_does_not_verify() {
    let hasher = light();
    let credential = hasher.hash("Secr3t!").unwrap();
    for other in ["wrong", "", "secr3t!", "Secr3t! ", "Secr3t", "Secr3t!!"] {
        assert!(!hasher.verify(other, &credential));
        assert_eq!(verify_credential(other, &credential), Err(Error::Unauthorized));
    }
}

#[test]
fn a_credential_describes_itself() {
    let credential = CredentialHasher::new(512, 3, 2).unwrap().hash("Secr3t!").unwrap();
    let fields: Vec<&str> = credential.split('$').collect();
    assert_eq!(fields.len(), 6);
    assert_eq!(fields[0], "");
    assert_eq!(fields[1], "argon2id");
    assert_eq!(fields[2], "v=19");
    assert_eq!(fields[3], "m=512,t=3,p=2");
    assert_eq!(fields[4].len(), 22);
    assert_eq!(fields[5].len(), 43);
    assert!(!credential.contains("Secr3t!"));
}

#[test]
fn a_credential_verifies_with_the_argon2_crate_itself() {
    let credential = light().hash("Secr3t!").unwrap();
    let parsed = PasswordHash::new(&credential).unwrap();
    assert!(Argon2::default().verify_password(b"Secr3t!", &parsed).is_ok());
    assert!(Argon2::default().verify_password(b"wrong", &parsed).is_err());
}

#[test]
fn the_recommended_costs_are_those_of_the_free_functions() {
    let credential = hash_password("Secr3t!".to_string()).unwrap();
    assert!(credential.starts_with("$argon2id$v=19$m=19456,t=2,p=1$"));
    assert_eq!(verify_password("Secr3t!".to_string(), credential.clone()), Ok(()));
    assert_eq!(verify_password("wrong".to_string(), credential), Err(Error::Unauthorized));
}

#[test]
fn a_credential_that_cannot_be_read_is_an_internal_fault() {
    let corrupt = Err(Error::Internal(Fault::CredentialEncoding));
    for stored in [
        "",
        "password",
        "$",
        "$argon2id",
        "argon2id$v=19$m=256,t=2,p=1$c29tZXNhbHQ$nf65EOgLrQMR/uIPnA4rEsF5h7TKyQwu9U1bMCHGi/4",
        "$argon2id$v=19$m=256,t=2,p=1$c29tZXNhbHQ$nf65EOgLrQMR/uIPnA4rEsF5h7TKyQwu9U1bMCHGi/4$extra",
        "$argon2id$v=19$m=256,t=2,p=1$c29tZXNhbHQ$nf65EOgLrQMR/uIPnA4rEsF5h7TKyQwu9U1bMCHGi/4\n",
        "$argon2id$v=19$m=256,t=2,p=1$c29t ZXNhbHQ$nf65EOgLrQMR/uIPnA4rEsF5h7TKyQwu9U1bMCHGi/4",
        "$argon2id$v=19$m=256,t=2,p=1$c29tZXNhbHQ$nf65EOgLrQMR/uIPnA4rEsF5h7TKyQwu9U1bMCHGi/é",
    ] {
        assert_eq!(verify_credential("password", stored), corrupt, "{stored}");
        assert!(!light().verify("password", stored));
    }
}

#[test]
fn a_credential_of_another_algorithm_or_with_unusable_costs_is_an_internal_fault() {
    let corrupt = Err(Error::Internal(Fault::CredentialEncoding));
    for stored in [
        "$scrypt$ln=15,r=8,p=1$c29tZXNhbHQ$nf65EOgLrQMR/uIPnA4rEsF5h7TKyQwu9U1bMCHGi/4",
        "$argon2id$v=18$m=256,t=2,p=1$c29tZXNhbHQ$nf65EOgLrQMR/uIPnA4rEsF5h7TKyQwu9U1bMCHGi/4",
        "$argon2id$v=19$m=256,t=0,p=1$c29tZXNhbHQ$nf65EOgLrQMR/uIPnA4rEsF5h7TKyQwu9U1bMCHGi/4",
        "$argon2id$v=19$m=7,t=2,p=1$c29tZXNhbHQ$nf65EOgLrQMR/uIPnA4rEsF5h7TKyQwu9U1bMCHGi/4",
        "$argon2id$v=19$m=256,t=2,p=0$c29tZXNhbHQ$nf65EOgLrQMR/uIPnA4rEsF5h7TKyQwu9U1bMCHGi/4",
        "$argon2id$v=19$m=256,t=2,p=16777216$c29tZXNhbHQ$nf65EOgLrQMR/uIPnA4rEsF5h7TKyQwu9U1bMCHGi/4",
        "$argon2id$v=19$m=256,t=2,p=536870912$c29tZXNhbHQ$nf65EOgLrQMR/uIPnA4rEsF5h7TKyQwu9U1bMCHGi/4",
        "$argon2id$v=19$m=256,t=2,p=4294967295$c29tZXNhbHQ$nf65EOgLrQMR/uIPnA4rEsF5h7TKyQwu9U1bMCHGi/4",
        "$argon2id$v=19$m=256,t=2,p=99999999999999999999$c29tZXNhbHQ$nf65EOgLrQMR/uIPnA4rEsF5h7TKyQwu9U1bMCHGi/4",
        "$argon2id$v=19$m=256,t=2,p=1,x=1$c29tZXNhbHQ$nf65EOgLrQMR/uIPnA4rEsF5h7TKyQwu9U1bMCHGi/4",
    ] {
        assert_eq!(verify_credential("password", stored), corrupt, "{stored}");
    }
}

#[test]
fn the_largest_parallelism_is_told_from_the_next() {
    assert!(declares_parallelism_within(b"$argon2id$v=19$m=256,t=2,p=16777215$salt$hash"));
    assert!(!declares_parallelism_within(b"$argon2id$v=19$m=256,t=2,p=16777216$salt$hash"));
    assert!(declares_parallelism_within(b"$argon2id$v=19$m=4294967295,t=4294967295,p=1$salt$hash"));
    assert!(declares_parallelism_within(b"p="));
    assert!(declares_parallelism_within(b"p"));
    assert!(declares_parallelism_within(b""));
    assert!(declares_parallelism_within(b"p=0000000000000000000000016777215"));
    assert!(!declares_parallelism_within(b"p=1,p=16777216"));
    assert!(!declares_parallelism_within(b"xp=99999999"));
}

#[test]
fn a_credential_without_salt_or_hash_is_an_internal_fault() {
    let corrupt = Err(Error::Internal(Fault::CredentialEncoding));
    assert_eq!(verify_credential("password", "$argon2id$v=19$m=256,t=2,p=1"), corrupt);
    assert_eq!(verify_credential("password", "$argon2id$v=19$m=256,t=2,p=1$c29tZXNhbHQ"), corrupt);
}

#[test]
fn costs_that_argon2_does_not_admit_are_refused() {
    let refused = Some(Error::Internal(Fault::CostParameters));
    assert_eq!(CredentialHasher::new(256, 0, 1).err(), refused);
    assert_eq!(CredentialHasher::new(256, 2, 0).err(), refused);
    assert_eq!(CredentialHasher::new(7, 2, 1).err(), refused);
    assert_eq!(CredentialHasher::new(15, 2, 2).err(), refused);
    assert_eq!(CredentialHasher::new(u32::MAX, 2, 0x100_0000).err(), refused);
    assert_eq!(CredentialHasher::new(0, 0, 0).err(), refused);
    assert!(CredentialHasher::new(8, 1, 1).is_ok());
    assert!(CredentialHasher::new(16, 1, 2).is_ok());
    assert!(CredentialHasher::new(19456, 2, 1).is_ok());
}

#[test]
fn a_salt_that_argon2_refuses_is_an_internal_fault() {
    let refused = Err(Error::Internal(Fault::Hashing));
    assert_eq!(light().hash_with_salt("password", ""), refused);
    assert_eq!(light().hash_with_salt("password", "abc"), refused);
    assert_eq!(light().hash_with_salt("password", "c29tZXNhbA"), refused);
    assert_eq!(light().hash_with_salt("password", "not a salt!"), refused);
}

#[test]
fn the_smallest_costs_derive_a_credential() {
    let hasher = CredentialHasher::new(8, 1, 1).unwrap();
    let credential = hasher.hash_with_salt("", "c29tZXNhbHQ").unwrap();
    assert!(credential.starts_with("$argon2id$v=19$m=8,t=1,p=1$c29tZXNhbHQ$"));
    assert!(hasher.verify("", &credential));
    assert!(!hasher.verify(" ", &credential));
}

#[test]
fn verdicts_and_outcomes_have_one_meaning_each() {
    assert_eq!(classify(Verdict::Match), Ok(()));
    assert_eq!(classify(Verdict::Mismatch), Err(Error::Unauthorized));
    assert_eq!(classify(Verdict::Unusable), Err(Error::Internal(Fault::CredentialEncoding)));
    assert_eq!(credential_from(Some("$x".to_string())), Ok("$x".to_string()));
    assert_eq!(credential_from(None), Err(Error::Internal(Fault::Hashing)));
}

//! Salted, memory-hard password credentials.
//!
//! A credential is one self-describing string: algorithm, version, cost
//! parameters, salt and derived hash. The derivation itself is Argon2id of
//! the `argon2` crate; this module decides what is handed to it and what
//! each of its answers means.

use argon2::password_hash::{Salt, SaltString};
use argon2::{Algorithm, Argon2, Params, PasswordHash, PasswordHasher, PasswordVerifier, Version};
use vstd::prelude::*;
use vstd::utf8::encode_utf8;
use crate::error::{Error, Fault};
use crate::numeral::is_digit;

verus! {

/// The largest degree of parallelism that Argon2 admits.
pub const MAX_PARALLELISM: u32 = 0xFF_FFFF;

/// What checking a password against a credential comes to.
#[derive(Clone, Copy, Debug, PartialEq, Eq, Structural)]
pub enum Verdict {
    /// The password gives the hash that the credential holds.
    Match,
    /// The credential is sound and the password gives another hash.
    Mismatch,
    /// The credential cannot be read or names parameters that cannot be used.
    Unusable,
}

/// Which of its two last parts a credential that parses holds.
#[derive(Clone, Copy, Debug, PartialEq, Eq, Structural)]
pub struct CredentialParts {
    pub has_salt: bool,
    pub has_hash: bool,
}

/// Whether three cost parameters are ones that Argon2 admits: at least one
/// pass, one to `MAX_PARALLELISM` lanes, and eight KiB of memory for each lane.
pub open spec fn valid_costs(memory_cost: u32, time_cost: u32, parallelism: u32) -> bool {
    &&& 1 <= time_cost
    &&& 1 <= parallelism <= MAX_PARALLELISM
    &&& 8 * parallelism <= memory_cost
}

/// The credential that Argon2id (version 19) derives from a password and a
/// salt under the given costs, or `None` where it refuses them.
pub uninterp spec fn phc_string(
    memory_cost: u32,
    time_cost: u32,
    parallelism: u32,
    password: Seq<char>,
    salt: Seq<char>,
) -> Option<Seq<char>>;

/// The parts of a credential as the `password-hash` crate parses it, or
/// `None` where it does not parse.
pub uninterp spec fn phc_parts(encoded: Seq<char>) -> Option<CredentialParts>;

/// What the `argon2` crate finds when it checks a password against a credential.
pub uninterp spec fn phc_verdict(password: Seq<char>, encoded: Seq<char>) -> Verdict;

/// The number that the digits from `i` on spell after the digits that
/// already spelt `acc`.
pub open spec fn run_value(s: Seq<u8>, i: int, acc: nat) -> nat
    decreases s.len() - i,
{
    if 0 <= i < s.len() && is_digit(s[i]) {
        run_value(s, i + 1, (acc * 10 + (s[i] - 48)) as nat)
    } else {
        acc
    }
}

/// Whether every `p=` in a credential is followed by a number that is no
/// more than `MAX_PARALLELISM`.
pub open spec fn parallelism_within(s: Seq<u8>) -> bool {
    forall|i: int|
        0 <= i && i + 1 < s.len() && #[trigger] s[i] == 'p' as u8 && s[i + 1] == '=' as u8
            ==> run_value(
            s,
            i + 2,
            0,
        ) <= MAX_PARALLELISM
}

/// More digits never spell less.
pub proof fn lemma_run_value_grows(s: Seq<u8>, i: int, acc: nat)
    ensures
        run_value(s, i, acc) >= acc,
    decreases s.len() - i,
{
    if 0 <= i < s.len() && is_digit(s[i]) {
        lemma_run_value_grows(s, i + 1, (acc * 10 + (s[i] - 48)) as nat);
    }
}

fn run_within(s: &[u8], start: usize) -> (r: bool)
    requires
        start <= s@.len(),
    ensures
        r == (run_value(s@, start as int, 0) <= MAX_PARALLELISM),
{
    let n: usize = s.len();
    let mut acc: u32 = 0;
    let mut i: usize = start;
    while i < n && 48 <= s[i] && s[i] <= 57
        invariant
            start <= i <= n,
            n == s@.len(),
            acc <= MAX_PARALLELISM,
            run_value(s@, start as int, 0) == run_value(s@, i as int, acc as nat),
        decreases n - i,
    {
        let next: u32 = acc * 10 + (s[i] - 48) as u32;
        if next > MAX_PARALLELISM {
            proof {
                lemma_run_value_grows(s@, i + 1, next as nat);
            }
            return false;
        }
        acc = next;
        i = i + 1;
    }
    true
}

/// Whether the parallelism that a credential declares is one that Argon2 admits.
pub fn declares_parallelism_within(s: &[u8]) -> (r: bool)
    ensures
        r == parallelism_within(s@),
{
    let n: usize = s.len();
    let mut i: usize = 0;
    while i < n
        invariant
            i <= n,
            n == s@.len(),
            forall|k: int|
                0 <= k < i && k + 1 < n && #[trigger] s@[k] == 112 && s@[k + 1] == 61
                    ==> run_value(s@, k + 2, 0) <= MAX_PARALLELISM,
        decreases n - i,
    {
        if s[i] == 112 && n - i > 1 && s[i + 1] == 61 {
            if !run_within(s, i + 2) {
                return false;
            }
        }
        i = i + 1;
    }
    true
}

/// Draws a fresh random salt.
///
/// Trusted: the body calls `SaltString::generate` of the `password-hash`
/// crate with the thread-local generator of `rand`. That function encodes
/// sixteen random bytes, which always gives 22 characters; nothing else is
/// claimed of the result, and two calls may differ.
#[verifier::external_body]
fn fresh_salt() -> (salt: String)
    ensures
        salt@.len() == 22,
{
    SaltString::generate(rand::thread_rng()).as_str().to_owned()
}

/// Derives the credential of a password under a salt.
///
/// Trusted: the body builds `Params` and an Argon2id context of version 19
/// from the three costs, reads the salt with `Salt::from_b64`, calls
/// `PasswordHasher::hash_password` and prints the result. The contract
/// names the outcome and claims nothing else of it. The costs are required
/// to be valid because `Params::new` multiplies the parallelism by eight
/// before it checks its range.
#[verifier::external_body]
fn derive_credential(memory_cost: u32, time_cost: u32, parallelism: u32, password: &str, salt: &str) -> (r:
    Option<String>)
    requires
        valid_costs(memory_cost, time_cost, parallelism),
    ensures
        outcome_text(r) == phc_string(memory_cost, time_cost, parallelism, password@, salt@),
{
    let params = Params::new(memory_cost, time_cost, parallelism, None).ok()?;
    let hasher = Argon2::new(Algorithm::Argon2id, Version::V0x13, params);
    let salt = Salt::from_b64(salt).ok()?;
    let hash = hasher.hash_password(password.as_bytes(), salt).ok()?;
    Some(hash.to_string())
}

/// Reads which parts a credential holds.
///
/// Trusted: the body parses the credential with `PasswordHash::new` of the
/// `password-hash` crate and reports whether the fields `salt` and `hash`
/// of the result are present. The contract names that answer.
#[verifier::external_body]
fn read_parts(encoded: &str) -> (parts: Option<CredentialParts>)
    ensures
        parts == phc_parts(encoded@),
{
    match PasswordHash::new(encoded) {
        Ok(hash) => Some(
            CredentialParts { has_salt: hash.salt.is_some(), has_hash: hash.hash.is_some() },
        ),
        Err(_) => None,
    }
}

/// Checks a password against a credential.
///
/// Trusted: the body reads the credential with `PasswordHash::new` and
/// calls `PasswordVerifier::verify_password` on an Argon2 context, which
/// derives the hash anew under the parameters that the credential declares
/// and compares in constant time. The answer is `Match` for `Ok`,
/// `Mismatch` for the error `Password`, and `Unusable` for a credential
/// that does not parse or any other error. The contract names that answer.
/// The declared parallelism is required to be in range because the crate
/// multiplies it by eight before it checks it.
#[verifier::external_body]
fn check_credential(password: &str, encoded: &str) -> (verdict: Verdict)
    requires
        parallelism_within(encode_utf8(encoded@)),
    ensures
        verdict == phc_verdict(password@, encoded@),
{
    match PasswordHash::new(encoded) {
        Err(_) => Verdict::Unusable,
        Ok(hash) => match Argon2::default().verify_password(password.as_bytes(), &hash) {
            Ok(()) => Verdict::Match,
            Err(argon2::password_hash::Error::Password) => Verdict::Mismatch,
            Err(_) => Verdict::Unusable,
        },
    }
}

/// What a derivation's outcome means: the credential, or an internal fault
/// where Argon2 refused its input.
pub open spec fn credential_of(outcome: Option<Seq<char>>) -> Result<Seq<char>, Error> {
    match outcome {
        Some(encoded) => Ok(encoded),
        None => Err(Error::Internal(Fault::Hashing)),
    }
}

/// What a verdict means for the request: success, an expected refusal, or
/// an internal fault that is not told to the client.
pub open spec fn verdict_result(verdict: Verdict) -> Result<(), Error> {
    match verdict {
        Verdict::Match => Ok(()),
        Verdict::Mismatch => Err(Error::Unauthorized),
        Verdict::Unusable => Err(Error::Internal(Fault::CredentialEncoding)),
    }
}

/// Whether a credential parses and holds both a salt and a hash.
pub open spec fn complete(parts: Option<CredentialParts>) -> bool {
    match parts {
        Some(found) => found.has_salt && found.has_hash,
        None => false,
    }
}

/// What checking `password` against the credential `encoded` comes to: an
/// internal fault for a credential that declares a parallelism out of
/// range, does not parse or lacks its salt or its hash, and else what the
/// verdict of Argon2 means.
pub open spec fn verification(password: Seq<char>, encoded: Seq<char>) -> Result<(), Error> {
    if parallelism_within(encode_utf8(encoded)) && complete(phc_parts(encoded)) {
        verdict_result(phc_verdict(password, encoded))
    } else {
        Err(Error::Internal(Fault::CredentialEncoding))
    }
}

/// The text of a credential, or the failure in its place.
pub open spec fn text_result(r: Result<String, Error>) -> Result<Seq<char>, Error> {
    match r {
        Ok(encoded) => Ok(encoded@),
        Err(error) => Err(error),
    }
}

/// The text of an outcome that may be absent.
pub open spec fn outcome_text(outcome: Option<String>) -> Option<Seq<char>> {
    match outcome {
        Some(encoded) => Some(encoded@),
        None => None,
    }
}

/// What deriving the credential of a password under a salt and the given
/// costs comes to.
pub open spec fn hashing(
    memory_cost: u32,
    time_cost: u32,
    parallelism: u32,
    password: Seq<char>,
    salt: Seq<char>,
) -> Result<Seq<char>, Error> {
    credential_of(phc_string(memory_cost, time_cost, parallelism, password, salt))
}

/// Turns a derivation's outcome into the credential or the fault it stands for.
pub fn credential_from(outcome: Option<String>) -> (r: Result<String, Error>)
    ensures
        text_result(r) == credential_of(outcome_text(outcome)),
{
    match outcome {
        Some(encoded) => Ok(encoded),
        None => Err(Error::Internal(Fault::Hashing)),
    }
}

/// Turns a verdict into the result that the request ends in.
pub fn classify(verdict: Verdict) -> (r: Result<(), Error>)
    ensures
        r == verdict_result(verdict),
{
    match verdict {
        Verdict::Match => Ok(()),
        Verdict::Mismatch => Err(Error::Unauthorized),
        Verdict::Unusable => Err(Error::Internal(Fault::CredentialEncoding)),
    }
}

/// Derives and verifies password credentials under fixed cost parameters.
#[derive(Clone, Copy, Debug)]
pub struct CredentialHasher {
    memory_cost: u32,
    time_cost: u32,
    parallelism: u32,
}

impl CredentialHasher {
    /// The memory cost, in KiB.
    pub closed spec fn memory_cost(&self) -> u32 {
        self.memory_cost
    }

    /// The number of passes.
    pub closed spec fn time_cost(&self) -> u32 {
        self.time_cost
    }

    /// The number of lanes.
    pub closed spec fn parallelism(&self) -> u32 {
        self.parallelism
    }

    #[verifier::type_invariant]
    spec fn well_formed(self) -> bool {
        valid_costs(self.memory_cost, self.time_cost, self.parallelism)
    }

    /// Makes a hasher, refusing cost parameters that Argon2 does not admit.
    pub fn new(memory_cost: u32, time_cost: u32, parallelism: u32) -> (r: Result<
        CredentialHasher,
        Error,
    >)
        ensures
            match r {
                Ok(hasher) => {
                    &&& valid_costs(memory_cost, time_cost, parallelism)
                    &&& hasher.memory_cost() == memory_cost
                    &&& hasher.time_cost() == time_cost
                    &&& hasher.parallelism() == parallelism
                },
                Err(error) => !valid_costs(memory_cost, time_cost, parallelism) && error
                    == Error::Internal(Fault::CostParameters),
            },
    {
        if time_cost >= 1 && parallelism >= 1 && parallelism <= MAX_PARALLELISM && memory_cost / 8
            >= parallelism {
            Ok(CredentialHasher { memory_cost, time_cost, parallelism })
        } else {
            Err(Error::Internal(Fault::CostParameters))
        }
    }

    /// The hasher with the recommended costs: 19 MiB of memory, two passes, one lane.
    pub fn recommended() -> (hasher: CredentialHasher)
        ensures
            hasher.memory_cost() == 19456,
            hasher.time_cost() == 2,
            hasher.parallelism() == 1,
    {
        CredentialHasher { memory_cost: 19456, time_cost: 2, parallelism: 1 }
    }

    /// Derives the credential of `password` under the salt `salt`.
    pub fn hash_with_salt(&self, password: &str, salt: &str) -> (r: Result<String, Error>)
        ensures
            text_result(r) == hashing(
                self.memory_cost(),
                self.time_cost(),
                self.parallelism(),
                password@,
                salt@,
            ),
    {
        proof {
            use_type_invariant(self);
        }
        credential_from(derive_credential(self.memory_cost, self.time_cost, self.parallelism, password, salt))
    }

    /// Derives a credential of `password` under a fresh random salt of 22
    /// characters. Two calls draw two salts, so their credentials may differ.
    pub fn hash(&self, password: &str) -> (r: Result<String, Error>)
        ensures
            exists|salt: Seq<char>|
                salt.len() == 22 && text_result(r) == #[trigger] hashing(
                    self.memory_cost(),
                    self.time_cost(),
                    self.parallelism(),
                    password@,
                    salt,
                ),
    {
        let salt: String = fresh_salt();
        self.hash_with_salt(password, salt.as_str())
    }

    /// Whether `password` is the password of the credential `encoded`. The
    /// answer does not tell a wrong password from a credential that cannot
    /// be used.
    pub fn verify(&self, password: &str, encoded: &str) -> (ok: bool)
        ensures
            ok == (verification(password@, encoded@) is Ok),
    {
        match verify_credential(password, encoded) {
            Ok(()) => true,
            Err(_) => false,
        }
    }
}

/// Checks `password` against the credential `encoded`: `Ok` for the right
/// password, `Unauthorized` for a wrong one, and an internal fault for a
/// credential that cannot be read or used.
pub fn verify_credential(password: &str, encoded: &str) -> (r: Result<(), Error>)
    ensures
        r == verification(password@, encoded@),
{
    if !declares_parallelism_within(encoded.as_bytes()) {
        return Err(Error::Internal(Fault::CredentialEncoding));
    }
    match read_parts(encoded) {
        Some(parts) => {
            if parts.has_salt && parts.has_hash {
                classify(check_credential(password, encoded))
            } else {
                Err(Error::Internal(Fault::CredentialEncoding))
            }
        },
        None => Err(Error::Internal(Fault::CredentialEncoding)),
    }
}

/// Derives a credential of `password` under the recommended costs and a
/// fresh random salt.
pub fn hash_password(password: String) -> (r: Result<String, Error>)
    ensures
        exists|salt: Seq<char>|
            salt.len() == 22 && text_result(r) == #[trigger] hashing(19456, 2, 1, password@, salt),
{
    CredentialHasher::recommended().hash(password.as_str())
}

/// Checks `password` against the stored credential `password_hash`.
pub fn verify_password(password: String, password_hash: String) -> (r: Result<(), Error>)
    ensures
        r == verification(password@, password_hash@),
{
    verify_credential(password.as_str(), password_hash.as_str())
}

} // verus!

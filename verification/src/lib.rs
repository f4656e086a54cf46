//! Authentication core of a property-management back office.
//!
//! The crate turns passwords into salted credentials, issues and validates
//! signed bearer tokens, and extracts the authenticated principal of a
//! request. Every executable function carries a contract that Verus proves;
//! the few calls into other crates (Argon2 and HMAC-SHA-256) stand behind
//! functions whose contracts are stated and believed, each marked as such.
//!
//! - [`password`]: credentials from passwords, and their verification.
//! - [`token`]: issuing and validating tokens; [`claims`], [`json`],
//!   [`flat`], [`encoding`], [`numeral`] and [`mac`] are its parts.
//! - [`extractor`]: from a request header to a [`principal::Principal`].
//! - [`session`]: the decisions of registration, login and renewal.
//! - [`error`]: the failures and what a client sees of each.
//! - [`building`], [`employee`], [`incident`], [`repair`], [`statistics`],
//!   [`user`]: the plain values of the business pages.

pub mod building;
pub mod claims;
pub mod employee;
pub mod encoding;
pub mod error;
pub mod extractor;
pub mod flat;
pub mod incident;
pub mod json;
pub mod mac;
pub mod numeral;
pub mod password;
pub mod principal;
pub mod repair;
pub mod session;
pub mod statistics;
pub mod token;
pub mod user;

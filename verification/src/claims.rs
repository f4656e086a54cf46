//! What a token says: its header and its claims, as JSON text.
//!
//! The claims are the subject (`sub`, an account identifier) and the expiry
//! (`exp`, in seconds since the epoch). Readers pass over any other member.

use vstd::prelude::*;
use crate::flat::{lemma_pair_of_string_and_int, lemma_pair_of_strings, pair_text, plain, quoted};
use crate::json::{
    bytes_equal, document, field, find_field, parse_object, value_bytes, Member, CLOSE_BRACE,
    COLON, COMMA, OPEN_BRACE, QUOTE,
};
use crate::numeral::{i64_value, int_text, lemma_int_roundtrip, push_int, read_i64};
use crate::principal::{lemma_uuid_roundtrip, lemma_uuid_text_shape, push_uuid, read_uuid, uuid_text, uuid_value};

verus! {

/// The claims of a token.
#[derive(Clone, Copy, Debug, PartialEq, Eq, Structural)]
pub struct Claims {
    /// The account that the token was issued to.
    pub subject: u128,
    /// The second, counted from the epoch, from which the token is no longer valid.
    pub expiry: i64,
}

/// The member name `sub`.
pub open spec fn name_sub() -> Seq<u8> {
    seq!['s' as u8, 'u' as u8, 'b' as u8]
}

/// The member name `exp`.
pub open spec fn name_exp() -> Seq<u8> {
    seq!['e' as u8, 'x' as u8, 'p' as u8]
}

/// The member name `alg`.
pub open spec fn name_alg() -> Seq<u8> {
    seq!['a' as u8, 'l' as u8, 'g' as u8]
}

/// The member name `typ`.
pub open spec fn name_typ() -> Seq<u8> {
    seq!['t' as u8, 'y' as u8, 'p' as u8]
}

/// The algorithm tag `HS256`.
pub open spec fn tag_hs256() -> Seq<u8> {
    seq!['H' as u8, 'S' as u8, '2' as u8, '5' as u8, '6' as u8]
}

/// The type tag `JWT`.
pub open spec fn tag_jwt() -> Seq<u8> {
    seq!['J' as u8, 'W' as u8, 'T' as u8]
}

/// The text of a set of claims: `{"sub":"<identifier>","exp":<seconds>}`.
pub open spec fn claims_text(claims: Claims) -> Seq<u8> {
    pair_text(
        name_sub(),
        quoted(uuid_text(claims.subject)),
        name_exp(),
        int_text(claims.expiry as int),
    )
}

/// The header that every issued token carries: `{"alg":"HS256","typ":"JWT"}`.
pub open spec fn header_text() -> Seq<u8> {
    pair_text(name_alg(), quoted(tag_hs256()), name_typ(), quoted(tag_jwt()))
}

/// The identifier that a `sub` value spells: a string that holds exactly
/// the text of an identifier.
pub open spec fn subject_of(value: Seq<u8>) -> Option<u128> {
    if value.len() == 38 && value[0] == QUOTE && value[37] == QUOTE {
        uuid_value(value.subrange(1, 37))
    } else {
        None
    }
}

/// The claims that a payload states, or `None` where it is not one JSON
/// object with exactly one `sub` that spells an identifier and exactly one
/// `exp` that is a canonical integer of 64 signed bits.
pub open spec fn parsed_claims(payload: Seq<u8>) -> Option<Claims> {
    match document(payload) {
        Some(members) => match (
            field(payload, members, name_sub()),
            field(payload, members, name_exp()),
        ) {
            (Some(sub), Some(exp)) => match (
                subject_of(value_bytes(payload, sub)),
                i64_value(value_bytes(payload, exp)),
            ) {
                (Some(subject), Some(expiry)) => Some(Claims { subject, expiry }),
                _ => None,
            },
            _ => None,
        },
        None => None,
    }
}

/// Whether a header is one JSON object whose one `alg` member is the
/// string `HS256`.
pub open spec fn header_accepted(header: Seq<u8>) -> bool {
    match document(header) {
        Some(members) => match field(header, members, name_alg()) {
            Some(alg) => value_bytes(header, alg) == quoted(tag_hs256()),
            None => false,
        },
        None => false,
    }
}

/// The name `sub` is not the name `exp`, and neither holds a character
/// that needs an escape; the same holds of `alg` and `typ` and of the tags.
proof fn lemma_names_are_plain()
    ensures
        plain(name_sub()),
        plain(name_exp()),
        plain(name_alg()),
        plain(name_typ()),
        plain(tag_hs256()),
        plain(tag_jwt()),
        name_sub() != name_exp(),
        name_alg() != name_typ(),
{
    assert(name_sub()[0] != name_exp()[0]);
    assert(name_alg()[0] != name_typ()[0]);
}

/// The text of an identifier holds no character that needs an escape.
proof fn lemma_uuid_text_is_plain(id: u128)
    ensures
        plain(uuid_text(id)),
        uuid_text(id).len() == 36,
{
    lemma_uuid_text_shape(id);
}

/// Reading the text of a set of claims gives the claims back.
pub proof fn lemma_claims_roundtrip(claims: Claims)
    ensures
        parsed_claims(claims_text(claims)) == Some(claims),
{
    let id = uuid_text(claims.subject);
    lemma_names_are_plain();
    lemma_uuid_text_is_plain(claims.subject);
    lemma_pair_of_string_and_int(name_sub(), id, name_exp(), claims.expiry as int);
    assert(subject_of(quoted(id)) == Some(claims.subject)) by {
        assert(quoted(id).subrange(1, 37) =~= id);
        lemma_uuid_roundtrip(claims.subject);
    }
    lemma_int_roundtrip(claims.expiry as int);
}

/// The header of issued tokens is a header that readers accept.
pub proof fn lemma_header_accepted()
    ensures
        header_accepted(header_text()),
{
    lemma_names_are_plain();
    lemma_pair_of_strings(name_alg(), tag_hs256(), name_typ(), tag_jwt());
}

impl Claims {
    /// Writes the claims as JSON text.
    pub fn to_bytes(&self) -> (text: Vec<u8>)
        ensures
            text@ == claims_text(*self),
    {
        let mut out: Vec<u8> = Vec::new();
        out.push(OPEN_BRACE);
        out.push(QUOTE);
        out.push(115);
        out.push(117);
        out.push(98);
        out.push(QUOTE);
        out.push(COLON);
        out.push(QUOTE);
        let ghost head: Seq<u8> = out@;
        push_uuid(self.subject, &mut out);
        out.push(QUOTE);
        out.push(COMMA);
        out.push(QUOTE);
        out.push(101);
        out.push(120);
        out.push(112);
        out.push(QUOTE);
        out.push(COLON);
        let ghost middle: Seq<u8> = out@;
        push_int(self.expiry, &mut out);
        out.push(CLOSE_BRACE);
        proof {
            reveal(pair_text);
            lemma_uuid_text_shape(self.subject);
            let id = uuid_text(self.subject);
            assert(head =~= seq![OPEN_BRACE] + quoted(name_sub()) + seq![COLON] + seq![QUOTE]);
            assert(middle =~= seq![OPEN_BRACE] + quoted(name_sub()) + seq![COLON] + quoted(id)
                + seq![COMMA] + quoted(name_exp()) + seq![COLON]);
            assert(out@ =~= claims_text(*self));
        }
        out
    }

    /// Reads the claims that a payload states.
    pub fn parse(payload: &[u8]) -> (r: Option<Claims>)
        ensures
            r == parsed_claims(payload@),
    {
        let members: Vec<Member> = match parse_object(payload) {
            Some(m) => m,
            None => { return None; },
        };
        let sub_name: [u8; 3] = [115, 117, 98];
        let exp_name: [u8; 3] = [101, 120, 112];
        let sub_slice: &[u8] = sub_name.as_slice();
        let exp_slice: &[u8] = exp_name.as_slice();
        assert(sub_slice@ =~= name_sub());
        assert(exp_slice@ =~= name_exp());
        let sub: Member = match find_field(payload, &members, sub_slice) {
            Some(m) => m,
            None => { return None; },
        };
        let exp: Member = match find_field(payload, &members, exp_slice) {
            Some(m) => m,
            None => { return None; },
        };
        let ghost sub_value: Seq<u8> = value_bytes(payload@, sub@);
        let expiry: Option<i64> = read_i64(payload, exp.value_start, exp.value_end);
        if sub.value_end - sub.value_start != 38 || payload[sub.value_start] != QUOTE
            || payload[sub.value_end - 1] != QUOTE {
            return None;
        }
        assert(sub_value.subrange(1, 37) =~= payload@.subrange(
            sub.value_start + 1,
            sub.value_end - 1,
        ));
        let subject: Option<u128> = read_uuid(payload, sub.value_start + 1, sub.value_end - 1);
        match (subject, expiry) {
            (Some(subject), Some(expiry)) => Some(Claims { subject, expiry }),
            _ => None,
        }
    }
}

/// Writes the header that every issued token carries.
pub fn header_bytes() -> (text: Vec<u8>)
    ensures
        text@ == header_text(),
{
    let mut out: Vec<u8> = Vec::new();
    out.push(OPEN_BRACE);
    out.push(QUOTE);
    out.push(97);
    out.push(108);
    out.push(103);
    out.push(QUOTE);
    out.push(COLON);
    out.push(QUOTE);
    out.push(72);
    out.push(83);
    out.push(50);
    out.push(53);
    out.push(54);
    out.push(QUOTE);
    out.push(COMMA);
    out.push(QUOTE);
    out.push(116);
    out.push(121);
    out.push(112);
    out.push(QUOTE);
    out.push(COLON);
    out.push(QUOTE);
    out.push(74);
    out.push(87);
    out.push(84);
    out.push(QUOTE);
    out.push(CLOSE_BRACE);
    proof {
        reveal(pair_text);
        assert(out@ =~= header_text());
    }
    out
}

/// Whether `header` is a header that names the algorithm of this crate.
pub fn accepts_header(header: &[u8]) -> (r: bool)
    ensures
        r == header_accepted(header@),
{
    let members: Vec<Member> = match parse_object(header) {
        Some(m) => m,
        None => { return false; },
    };
    let alg_name: [u8; 3] = [97, 108, 103];
    let alg_slice: &[u8] = alg_name.as_slice();
    assert(alg_slice@ =~= name_alg());
    let expected: [u8; 7] = [34, 72, 83, 50, 53, 54, 34];
    let expected_slice: &[u8] = expected.as_slice();
    assert(expected_slice@ =~= quoted(tag_hs256()));
    match find_field(header, &members, alg_slice) {
        Some(alg) => bytes_equal(header, alg.value_start, alg.value_end, expected_slice),
        None => false,
    }
}

} // verus!

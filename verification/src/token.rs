//! Signed, stateless session tokens.
//!
//! A token is three segments joined by dots: header, payload and signature,
//! each in unpadded URL-safe base64. The signature is the HMAC-SHA-256 tag
//! of the first two segments and the dot between them.

use vstd::prelude::*;
use vstd::slice::slice_subrange;
use crate::claims::{
    accepts_header, claims_text, header_accepted, header_bytes, header_text, parsed_claims, Claims,
};
use crate::encoding::{decode, decoded, encode, encoded};
use crate::error::{Error, Fault, TokenError};
use crate::mac::{compute_tag, constant_time_eq, hmac_sha256};
use crate::principal::Principal;

verus! {

/// The dot that separates the segments of a token.
pub const DOT: u8 = 46;

/// The first position at or after `from` that holds a dot, or the length of
/// the text where none does.
pub open spec fn next_dot(s: Seq<u8>, from: int) -> int
    decreases s.len() - from,
{
    if from < 0 || from >= s.len() {
        s.len() as int
    } else if s[from] == DOT {
        from
    } else {
        next_dot(s, from + 1)
    }
}

/// The parts of a token: its three segments, and the text that is signed.
pub ghost struct Segments {
    pub header: Seq<u8>,
    pub payload: Seq<u8>,
    pub signature: Seq<u8>,
    pub signed: Seq<u8>,
}

/// The parts of a token that holds exactly two dots.
pub open spec fn segments(token: Seq<u8>) -> Option<Segments> {
    let a = next_dot(token, 0);
    if a >= token.len() {
        None
    } else {
        let b = next_dot(token, a + 1);
        if b >= token.len() {
            None
        } else if next_dot(token, b + 1) < token.len() {
            None
        } else {
            Some(
                Segments {
                    header: token.subrange(0, a),
                    payload: token.subrange(a + 1, b),
                    signature: token.subrange(b + 1, token.len() as int),
                    signed: token.subrange(0, b),
                },
            )
        }
    }
}

/// The text that is signed for a set of claims: the encoded header, a dot
/// and the encoded claims.
pub open spec fn signed_text(claims: Claims) -> Seq<u8> {
    encoded(header_text()) + seq![DOT] + encoded(claims_text(claims))
}

/// The token that a secret issues for a set of claims.
pub open spec fn issued(secret: Seq<u8>, claims: Claims) -> Seq<u8> {
    signed_text(claims) + seq![DOT] + encoded(hmac_sha256(secret, signed_text(claims)))
}

/// What a token is worth under a secret at the moment `now`.
///
/// The signature is checked before the header or any claim is read; only
/// then are the header and the claims read, and the expiry compared.
pub open spec fn validation(secret: Seq<u8>, token: Seq<u8>, now: int) -> Result<
    Principal,
    TokenError,
> {
    match segments(token) {
        None => Err(TokenError::Malformed),
        Some(parts) => match decoded(parts.signature) {
            None => Err(TokenError::Malformed),
            Some(tag) => if tag != hmac_sha256(secret, parts.signed) {
                Err(TokenError::BadSignature)
            } else {
                match (decoded(parts.header), decoded(parts.payload)) {
                    (Some(header), Some(payload)) => if !header_accepted(header) {
                        Err(TokenError::Malformed)
                    } else {
                        match parsed_claims(payload) {
                            None => Err(TokenError::Malformed),
                            Some(claims) => if claims.expiry > now {
                                Ok(Principal { user_id: claims.subject })
                            } else {
                                Err(TokenError::Expired)
                            },
                        }
                    },
                    _ => Err(TokenError::Malformed),
                }
            },
        },
    }
}

fn find_dot(s: &[u8], from: usize) -> (r: usize)
    ensures
        r == next_dot(s@, from as int),
        r <= s@.len(),
        from <= s@.len() ==> from <= r,
{
    let n: usize = s.len();
    if from >= n {
        return n;
    }
    let mut i: usize = from;
    while i < n && s[i] != DOT
        invariant
            from <= i <= n,
            n == s@.len(),
            next_dot(s@, from as int) == next_dot(s@, i as int),
        decreases n - i,
    {
        i = i + 1;
    }
    i
}

/// Issues and validates tokens under one secret and one lifetime, both
/// fixed when the codec is made.
pub struct TokenCodec {
    secret: Vec<u8>,
    ttl: i64,
}

impl TokenCodec {
    /// The signing secret.
    pub closed spec fn secret(&self) -> Seq<u8> {
        self.secret@
    }

    /// The lifetime of issued tokens, in seconds.
    pub closed spec fn ttl(&self) -> int {
        self.ttl as int
    }

    #[verifier::type_invariant]
    spec fn well_formed(self) -> bool {
        self.secret@.len() > 0 && self.ttl > 0
    }

    /// Makes a codec, refusing an empty secret and a lifetime that is not positive.
    pub fn new(secret: Vec<u8>, ttl_seconds: i64) -> (r: Result<TokenCodec, Error>)
        ensures
            match r {
                Ok(codec) => secret@.len() > 0 && ttl_seconds > 0 && codec.secret() == secret@
                    && codec.ttl() == ttl_seconds,
                Err(error) => if secret@.len() == 0 {
                    error == Error::Internal(Fault::SigningKey)
                } else {
                    ttl_seconds <= 0 && error == Error::Internal(Fault::TokenLifetime)
                },
            },
    {
        if secret.len() == 0 {
            Err(Error::Internal(Fault::SigningKey))
        } else if ttl_seconds <= 0 {
            Err(Error::Internal(Fault::TokenLifetime))
        } else {
            Ok(TokenCodec { secret, ttl: ttl_seconds })
        }
    }

    /// The lifetime of issued tokens, in seconds.
    pub fn ttl_seconds(&self) -> (seconds: i64)
        ensures
            seconds == self.ttl(),
            seconds > 0,
    {
        proof {
            use_type_invariant(self);
        }
        self.ttl
    }

    /// Issues a token for `principal` that expires one lifetime after `now`.
    pub fn issue(&self, principal: Principal, now: i64) -> (token: Vec<u8>)
        requires
            now + self.ttl() <= i64::MAX,
        ensures
            token@ == issued(
                self.secret(),
                Claims { subject: principal.user_id, expiry: (now + self.ttl()) as i64 },
            ),
            is_token_text(token@),
    {
        proof {
            use_type_invariant(self);
            lemma_issued_is_text(
                self.secret@,
                Claims { subject: principal.user_id, expiry: (now + self.ttl) as i64 },
            );
        }
        let claims: Claims = Claims { subject: principal.user_id, expiry: now + self.ttl };
        let header: Vec<u8> = header_bytes();
        let payload: Vec<u8> = claims.to_bytes();
        let mut token: Vec<u8> = encode(header.as_slice());
        let mut payload_text: Vec<u8> = encode(payload.as_slice());
        token.push(DOT);
        token.append(&mut payload_text);
        assert(token@ =~= signed_text(claims));
        let tag: Vec<u8> = compute_tag(self.secret.as_slice(), token.as_slice());
        let mut signature: Vec<u8> = encode(tag.as_slice());
        token.push(DOT);
        token.append(&mut signature);
        assert(token@ =~= issued(self.secret@, claims));
        token
    }

    /// Decides what `token` is worth at the moment `now`.
    pub fn validate(&self, token: &[u8], now: i64) -> (r: Result<Principal, TokenError>)
        ensures
            r == validation(self.secret(), token@, now as int),
    {
        let n: usize = token.len();
        let a: usize = find_dot(token, 0);
        if a >= n {
            return Err(TokenError::Malformed);
        }
        let b: usize = find_dot(token, a + 1);
        if b >= n {
            return Err(TokenError::Malformed);
        }
        if find_dot(token, b + 1) < n {
            return Err(TokenError::Malformed);
        }
        let signature: Vec<u8> = match decode(slice_subrange(token, b + 1, n)) {
            Some(bytes) => bytes,
            None => { return Err(TokenError::Malformed); },
        };
        let expected: Vec<u8> = compute_tag(self.secret.as_slice(), slice_subrange(token, 0, b));
        if !constant_time_eq(signature.as_slice(), expected.as_slice()) {
            return Err(TokenError::BadSignature);
        }
        let header: Option<Vec<u8>> = decode(slice_subrange(token, 0, a));
        let payload: Option<Vec<u8>> = decode(slice_subrange(token, a + 1, b));
        match (header, payload) {
            (Some(header), Some(payload)) => {
                if !accepts_header(header.as_slice()) {
                    return Err(TokenError::Malformed);
                }
                match Claims::parse(payload.as_slice()) {
                    None => Err(TokenError::Malformed),
                    Some(claims) => {
                        if claims.expiry > now {
                            Ok(Principal { user_id: claims.subject })
                        } else {
                            Err(TokenError::Expired)
                        }
                    },
                }
            },
            _ => Err(TokenError::Malformed),
        }
    }
}

/// Whether a text holds no dot.
pub open spec fn no_dot(s: Seq<u8>) -> bool {
    forall|i: int| 0 <= i < s.len() ==> #[trigger] s[i] != DOT
}

/// A run without dots ends at the next dot, or at the end of the text.
pub proof fn lemma_next_dot_run(s: Seq<u8>, i: int, j: int)
    requires
        0 <= i <= j <= s.len(),
        forall|x: int| i <= x < j ==> #[trigger] s[x] != DOT,
        j == s.len() || s[j] == DOT,
    ensures
        next_dot(s, i) == j,
    decreases j - i,
{
    if i < j {
        lemma_next_dot_run(s, i + 1, j);
    }
}

/// Where a dot stands at or after `i`, the next dot is found inside the text.
pub proof fn lemma_next_dot_found(s: Seq<u8>, i: int, k: int)
    requires
        0 <= i <= k < s.len(),
        s[k] == DOT,
    ensures
        i <= next_dot(s, i) <= k,
    decreases k - i,
{
    if s[i] != DOT {
        lemma_next_dot_found(s, i + 1, k);
    }
}

/// Encoded text holds no dot.
pub proof fn lemma_encoded_no_dot(data: Seq<u8>)
    ensures
        no_dot(encoded(data)),
{
    crate::encoding::lemma_encoded_shape(data);
    assert forall|i: int| 0 <= i < encoded(data).len() implies #[trigger] encoded(data)[i]
        != DOT by {
        crate::encoding::lemma_char_roundtrip(encoded(data)[i]);
    }
}

/// Three texts without dots, joined by dots, are the three segments of the
/// token they make.
pub proof fn lemma_joined_segments(header: Seq<u8>, payload: Seq<u8>, signature: Seq<u8>)
    requires
        no_dot(header),
        no_dot(payload),
        no_dot(signature),
    ensures
        segments(header + seq![DOT] + payload + seq![DOT] + signature) == Some(
            Segments { header, payload, signature, signed: header + seq![DOT] + payload },
        ),
{
    let token = header + seq![DOT] + payload + seq![DOT] + signature;
    let a = header.len() as int;
    let b = a + 1 + payload.len();
    assert forall|x: int| 0 <= x < a implies #[trigger] token[x] != DOT by {
        assert(token[x] == header[x]);
    }
    assert forall|x: int| a + 1 <= x < b implies #[trigger] token[x] != DOT by {
        assert(token[x] == payload[x - a - 1]);
    }
    assert forall|x: int| b + 1 <= x < token.len() implies #[trigger] token[x] != DOT by {
        assert(token[x] == signature[x - b - 1]);
    }
    assert(token[a] == DOT);
    assert(token[b] == DOT);
    lemma_next_dot_run(token, 0, a);
    lemma_next_dot_run(token, a + 1, b);
    lemma_next_dot_run(token, b + 1, token.len() as int);
    assert(token.subrange(0, a) =~= header);
    assert(token.subrange(a + 1, b) =~= payload);
    assert(token.subrange(b + 1, token.len() as int) =~= signature);
    assert(token.subrange(0, b) =~= header + seq![DOT] + payload);
}

/// A token whose third part holds a dot has more than three segments.
pub proof fn lemma_extra_dot(header: Seq<u8>, payload: Seq<u8>, last: Seq<u8>)
    requires
        no_dot(header),
        no_dot(payload),
        !no_dot(last),
    ensures
        segments(header + seq![DOT] + payload + seq![DOT] + last) is None,
{
    let token = header + seq![DOT] + payload + seq![DOT] + last;
    let a = header.len() as int;
    let b = a + 1 + payload.len();
    let k = choose|k: int| 0 <= k < last.len() && last[k] == DOT;
    assert forall|x: int| 0 <= x < a implies #[trigger] token[x] != DOT by {
        assert(token[x] == header[x]);
    }
    assert forall|x: int| a + 1 <= x < b implies #[trigger] token[x] != DOT by {
        assert(token[x] == payload[x - a - 1]);
    }
    assert(token[a] == DOT);
    assert(token[b] == DOT);
    assert(token[b + 1 + k] == last[k]);
    lemma_next_dot_run(token, 0, a);
    lemma_next_dot_run(token, a + 1, b);
    lemma_next_dot_found(token, b + 1, b + 1 + k);
}

/// A token validates, up to its expiry, under the secret that issued it:
/// it is worth its subject while the expiry lies after `now`, and is
/// expired from then on.
pub proof fn lemma_issue_then_validate(secret: Seq<u8>, claims: Claims, now: int)
    ensures
        validation(secret, issued(secret, claims), now) == if claims.expiry > now {
            Ok::<Principal, TokenError>(Principal { user_id: claims.subject })
        } else {
            Err::<Principal, TokenError>(TokenError::Expired)
        },
{
    let header = encoded(header_text());
    let payload = encoded(claims_text(claims));
    let tag = hmac_sha256(secret, signed_text(claims));
    let signature = encoded(tag);
    lemma_encoded_no_dot(header_text());
    lemma_encoded_no_dot(claims_text(claims));
    lemma_encoded_no_dot(tag);
    lemma_joined_segments(header, payload, signature);
    crate::encoding::lemma_decoded_encoded(header_text());
    crate::encoding::lemma_decoded_encoded(claims_text(claims));
    crate::encoding::lemma_decoded_encoded(tag);
    crate::claims::lemma_header_accepted();
    crate::claims::lemma_claims_roundtrip(claims);
}

/// A token whose signature segment was replaced by any other text is
/// refused: for a bad signature where the new text still decodes, and as
/// malformed where it does not.
pub proof fn lemma_altered_signature(secret: Seq<u8>, claims: Claims, forged: Seq<u8>, now: int)
    requires
        forged != encoded(hmac_sha256(secret, signed_text(claims))),
    ensures
        validation(secret, signed_text(claims) + seq![DOT] + forged, now) == if decoded(forged)
            is Some {
            Err::<Principal, TokenError>(TokenError::BadSignature)
        } else {
            Err::<Principal, TokenError>(TokenError::Malformed)
        },
{
    let header = encoded(header_text());
    let payload = encoded(claims_text(claims));
    let tag = hmac_sha256(secret, signed_text(claims));
    lemma_encoded_no_dot(header_text());
    lemma_encoded_no_dot(claims_text(claims));
    if no_dot(forged) {
        lemma_joined_segments(header, payload, forged);
        if decoded(forged) == Some(tag) {
            crate::encoding::lemma_encoded_decoded(forged);
        }
    } else {
        lemma_extra_dot(header, payload, forged);
        if decoded(forged) is Some {
            crate::encoding::lemma_decoded_in_alphabet(forged);
            assert forall|i: int| 0 <= i < forged.len() implies #[trigger] forged[i] != DOT by {
                crate::encoding::lemma_char_roundtrip(forged[i]);
            }
        }
    }
}

/// A token is worth a principal only if its signature segment spells the
/// tag that the secret gives to the rest of the token, and its expiry lies
/// after `now`.
pub proof fn lemma_valid_token_is_signed(secret: Seq<u8>, token: Seq<u8>, now: int)
    requires
        validation(secret, token, now) is Ok,
    ensures
        segments(token) is Some,
        decoded(segments(token)->0.signature) == Some(
            hmac_sha256(secret, segments(token)->0.signed),
        ),
        decoded(segments(token)->0.payload) is Some,
        parsed_claims(decoded(segments(token)->0.payload)->0) is Some,
        parsed_claims(decoded(segments(token)->0.payload)->0)->0.expiry > now,
        parsed_claims(decoded(segments(token)->0.payload)->0)->0.subject == validation(
            secret,
            token,
            now,
        )->Ok_0.user_id,
{
}

/// Whether a text is made of dots and characters of the base64url
/// alphabet only, so that it can travel in a header as it is.
pub open spec fn is_token_text(s: Seq<u8>) -> bool {
    forall|i: int|
        0 <= i < s.len() ==> #[trigger] s[i] == DOT || crate::encoding::char_sextet(s[i]) is Some
}

/// An issued token is made of dots and characters of the base64url alphabet only.
pub proof fn lemma_issued_is_text(secret: Seq<u8>, claims: Claims)
    ensures
        is_token_text(issued(secret, claims)),
{
    let header = encoded(header_text());
    let payload = encoded(claims_text(claims));
    let signature = encoded(hmac_sha256(secret, signed_text(claims)));
    crate::encoding::lemma_encoded_shape(header_text());
    crate::encoding::lemma_encoded_shape(claims_text(claims));
    crate::encoding::lemma_encoded_shape(hmac_sha256(secret, signed_text(claims)));
    let token = issued(secret, claims);
    let a = header.len() as int;
    let b = a + 1 + payload.len();
    assert(token =~= header + seq![DOT] + payload + seq![DOT] + signature);
    assert forall|i: int| 0 <= i < token.len() implies #[trigger] token[i] == DOT
        || crate::encoding::char_sextet(token[i]) is Some by {
        if i < a {
            assert(token[i] == header[i]);
        } else if i == a {
        } else if i < b {
            assert(token[i] == payload[i - a - 1]);
        } else if i == b {
        } else {
            assert(token[i] == signature[i - b - 1]);
        }
    }
}

/// The worth of a token never grows with time: a token that is worth a
/// principal at one moment was worth the same principal at every earlier
/// moment, and a token that is refused stays refused for the same cause.
pub proof fn lemma_validity_only_ends(secret: Seq<u8>, token: Seq<u8>, earlier: int, later: int)
    requires
        earlier <= later,
    ensures
        validation(secret, token, later) is Ok ==> validation(secret, token, earlier)
            == validation(secret, token, later),
        validation(secret, token, earlier) is Err ==> validation(secret, token, later)
            == validation(secret, token, earlier),
{
}

/// An issued token is not empty.
pub proof fn lemma_issued_is_not_empty(secret: Seq<u8>, claims: Claims)
    ensures
        issued(secret, claims).len() > 0,
{
}

} // verus!

//! Message authentication for token signatures.

use hmac::{Hmac, Mac};
use sha2::Sha256;
use vstd::prelude::*;

verus! {

/// The HMAC-SHA-256 tag of `message` under `key`.
///
/// The tag is computed by the `hmac` and `sha2` crates; this crate reasons
/// only from the fact that equal keys and messages give equal tags.
pub uninterp spec fn hmac_sha256(key: Seq<u8>, message: Seq<u8>) -> Seq<u8>;

/// Computes the tag of `message` under `key`.
///
/// Trusted: the body feeds the key and the message to `Hmac<Sha256>` of the
/// `hmac` crate (`new_from_slice`, `update`, `finalize`) and returns the
/// bytes of the result. The contract names that result and claims nothing
/// else of it. `new_from_slice` accepts a key of any length for HMAC, so the
/// call does not fail.
#[verifier::external_body]
pub(crate) fn compute_tag(key: &[u8], message: &[u8]) -> (tag: Vec<u8>)
    ensures
        tag@ == hmac_sha256(key@, message@),
{
    let mut state = Hmac::<Sha256>::new_from_slice(key).expect("HMAC takes a key of any length");
    state.update(message);
    state.finalize().into_bytes().to_vec()
}

/// Whether two byte strings are equal, decided without stopping at the
/// first difference: the time taken depends on the lengths only.
pub fn constant_time_eq(a: &[u8], b: &[u8]) -> (r: bool)
    ensures
        r == (a@ == b@),
{
    let n: usize = a.len();
    if n != b.len() {
        return false;
    }
    let mut difference: u8 = 0;
    let mut i: usize = 0;
    assert(a@.take(0) =~= b@.take(0));
    while i < n
        invariant
            i <= n,
            n == a@.len(),
            n == b@.len(),
            difference == 0 <==> a@.take(i as int) == b@.take(i as int),
        decreases n - i,
    {
        let x: u8 = a[i];
        let y: u8 = b[i];
        let before: u8 = difference;
        difference = difference | (x ^ y);
        proof {
            assert((before | (x ^ y)) == 0 <==> (before == 0 && x == y)) by (bit_vector);
            assert(a@.take(i + 1) =~= a@.take(i as int).push(x));
            assert(b@.take(i + 1) =~= b@.take(i as int).push(y));
            if a@.take(i + 1) == b@.take(i + 1) {
                assert(a@.take(i as int) =~= a@.take(i + 1).drop_last());
                assert(b@.take(i as int) =~= b@.take(i + 1).drop_last());
                assert(a@.take(i + 1).last() == b@.take(i + 1).last());
            }
        }
        i = i + 1;
    }
    assert(a@.take(n as int) =~= a@);
    assert(b@.take(n as int) =~= b@);
    difference == 0
}

} // verus!

//! Unpadded base64 over the URL-safe alphabet, as token segments use it.
//!
//! Decoding is strict: characters outside the alphabet, a dangling single
//! character and non-zero spare bits in the last character are all refused,
//! so every byte string has exactly one accepted spelling.

use vstd::prelude::*;

verus! {

/// The character that spells the six-bit value `v`.
#[verifier::opaque]
pub open spec fn sextet_char(v: int) -> u8 {
    if 0 <= v < 26 {
        (65 + v) as u8
    } else if 26 <= v < 52 {
        (97 + v - 26) as u8
    } else if 52 <= v < 62 {
        (48 + v - 52) as u8
    } else if v == 62 {
        45u8
    } else {
        95u8
    }
}

/// The six-bit value that `c` spells, if `c` belongs to the alphabet.
#[verifier::opaque]
pub open spec fn char_sextet(c: u8) -> Option<int> {
    if 65 <= c <= 90 {
        Some(c - 65)
    } else if 97 <= c <= 122 {
        Some(c - 97 + 26)
    } else if 48 <= c <= 57 {
        Some(c - 48 + 52)
    } else if c == 45 {
        Some(62int)
    } else if c == 95 {
        Some(63int)
    } else {
        None
    }
}

/// The four characters of three whole bytes.
pub open spec fn encode_triple(x: int, y: int, z: int) -> Seq<u8> {
    seq![
        sextet_char(x / 4),
        sextet_char((x % 4) * 16 + y / 16),
        sextet_char((y % 16) * 4 + z / 64),
        sextet_char(z % 64),
    ]
}

/// The three bytes of four six-bit values.
pub open spec fn decode_quad(a: int, b: int, c: int, d: int) -> Seq<u8> {
    seq![(a * 4 + b / 16) as u8, ((b % 16) * 16 + c / 4) as u8, ((c % 4) * 64 + d) as u8]
}

/// The text of a byte string: four characters for every three bytes, and two
/// or three characters for a remainder of one or two bytes.
pub open spec fn encoded(data: Seq<u8>) -> Seq<u8>
    decreases data.len(),
{
    if data.len() == 0 {
        Seq::empty()
    } else if data.len() == 1 {
        let x: int = data[0] as int;
        seq![sextet_char(x / 4), sextet_char((x % 4) * 16)]
    } else if data.len() == 2 {
        let x: int = data[0] as int;
        let y: int = data[1] as int;
        seq![sextet_char(x / 4), sextet_char((x % 4) * 16 + y / 16), sextet_char((y % 16) * 4)]
    } else {
        encode_triple(data[0] as int, data[1] as int, data[2] as int) + encoded(data.skip(3))
    }
}

/// The bytes that a text spells, or `None` where the text is not the
/// encoding of any byte string.
pub open spec fn decoded(text: Seq<u8>) -> Option<Seq<u8>>
    decreases text.len(),
{
    if text.len() == 0 {
        Some(Seq::empty())
    } else if text.len() == 1 {
        None
    } else if text.len() == 2 {
        match (char_sextet(text[0]), char_sextet(text[1])) {
            (Some(a), Some(b)) => if b % 16 == 0 {
                Some(seq![(a * 4 + b / 16) as u8])
            } else {
                None
            },
            _ => None,
        }
    } else if text.len() == 3 {
        match (char_sextet(text[0]), char_sextet(text[1]), char_sextet(text[2])) {
            (Some(a), Some(b), Some(c)) => if c % 4 == 0 {
                Some(seq![(a * 4 + b / 16) as u8, ((b % 16) * 16 + c / 4) as u8])
            } else {
                None
            },
            _ => None,
        }
    } else {
        match (
            char_sextet(text[0]),
            char_sextet(text[1]),
            char_sextet(text[2]),
            char_sextet(text[3]),
            decoded(text.skip(4)),
        ) {
            (Some(a), Some(b), Some(c), Some(d), Some(rest)) => Some(decode_quad(a, b, c, d) + rest),
            _ => None,
        }
    }
}

/// Whether every character of `text` belongs to the alphabet.
pub open spec fn in_alphabet(text: Seq<u8>) -> bool {
    forall|i: int| 0 <= i < text.len() ==> char_sextet(#[trigger] text[i]) is Some
}

/// The number of characters that `n` bytes encode to.
pub open spec fn encoded_len(n: nat) -> nat {
    (n / 3) * 4 + if n % 3 == 0 {
        0nat
    } else {
        (n % 3 + 1) as nat
    }
}

/// Each six-bit value and its character stand for one another, and no
/// character of the alphabet is a dot.
pub proof fn lemma_sextet_roundtrip(v: int)
    requires
        0 <= v < 64,
    ensures
        char_sextet(sextet_char(v)) == Some(v),
        sextet_char(v) != 46,
{
    reveal(sextet_char);
    reveal(char_sextet);
}

/// A character of the alphabet is the character of its own value.
pub proof fn lemma_char_roundtrip(c: u8)
    requires
        char_sextet(c) is Some,
    ensures
        0 <= char_sextet(c)->0 < 64,
        sextet_char(char_sextet(c)->0) == c,
        c != 46,
{
    reveal(sextet_char);
    reveal(char_sextet);
}

proof fn lemma_triple(x: u8, y: u8, z: u8)
    ensures
        ({
            let t = encode_triple(x as int, y as int, z as int);
            &&& char_sextet(t[0]) == Some(x as int / 4)
            &&& char_sextet(t[1]) == Some((x as int % 4) * 16 + y as int / 16)
            &&& char_sextet(t[2]) == Some((y as int % 16) * 4 + z as int / 64)
            &&& char_sextet(t[3]) == Some(z as int % 64)
            &&& decode_quad(
                x as int / 4,
                (x as int % 4) * 16 + y as int / 16,
                (y as int % 16) * 4 + z as int / 64,
                z as int % 64,
            ) == seq![x, y, z]
        }),
{
    let a: int = x as int / 4;
    let b: int = (x as int % 4) * 16 + y as int / 16;
    let c: int = (y as int % 16) * 4 + z as int / 64;
    let d: int = z as int % 64;
    lemma_sextet_roundtrip(a);
    lemma_sextet_roundtrip(b);
    lemma_sextet_roundtrip(c);
    lemma_sextet_roundtrip(d);
    assert(a * 4 + b / 16 == x);
    assert((b % 16) * 16 + c / 4 == y);
    assert((c % 4) * 64 + d == z);
    assert(decode_quad(a, b, c, d) =~= seq![x, y, z]);
}

proof fn lemma_quad(p: u8, q: u8, r: u8, s: u8)
    requires
        char_sextet(p) is Some,
        char_sextet(q) is Some,
        char_sextet(r) is Some,
        char_sextet(s) is Some,
    ensures
        ({
            let bytes = decode_quad(
                char_sextet(p)->0,
                char_sextet(q)->0,
                char_sextet(r)->0,
                char_sextet(s)->0,
            );
            encode_triple(bytes[0] as int, bytes[1] as int, bytes[2] as int) == seq![p, q, r, s]
        }),
{
    let a: int = char_sextet(p)->0;
    let b: int = char_sextet(q)->0;
    let c: int = char_sextet(r)->0;
    let d: int = char_sextet(s)->0;
    lemma_char_roundtrip(p);
    lemma_char_roundtrip(q);
    lemma_char_roundtrip(r);
    lemma_char_roundtrip(s);
    let x: int = a * 4 + b / 16;
    let y: int = (b % 16) * 16 + c / 4;
    let z: int = (c % 4) * 64 + d;
    assert(0 <= x < 256 && 0 <= y < 256 && 0 <= z < 256);
    assert(x / 4 == a);
    assert((x % 4) * 16 + y / 16 == b);
    assert((y % 16) * 4 + z / 64 == c);
    assert(z % 64 == d);
    let bytes = decode_quad(a, b, c, d);
    assert(bytes[0] as int == x && bytes[1] as int == y && bytes[2] as int == z);
    assert(encode_triple(x, y, z) =~= seq![p, q, r, s]);
}

/// Encoded text stays inside the alphabet and has the expected length.
pub proof fn lemma_encoded_shape(data: Seq<u8>)
    ensures
        in_alphabet(encoded(data)),
        encoded(data).len() == encoded_len(data.len()),
    decreases data.len(),
{
    if data.len() == 0 {
    } else if data.len() == 1 {
        let x: int = data[0] as int;
        lemma_sextet_roundtrip(x / 4);
        lemma_sextet_roundtrip((x % 4) * 16);
    } else if data.len() == 2 {
        let x: int = data[0] as int;
        let y: int = data[1] as int;
        lemma_sextet_roundtrip(x / 4);
        lemma_sextet_roundtrip((x % 4) * 16 + y / 16);
        lemma_sextet_roundtrip((y % 16) * 4);
    } else {
        lemma_encoded_shape(data.skip(3));
        lemma_triple(data[0], data[1], data[2]);
        let head: Seq<u8> = encode_triple(data[0] as int, data[1] as int, data[2] as int);
        let rest: Seq<u8> = encoded(data.skip(3));
        assert(encoded(data) == head + rest);
        assert forall|i: int| 0 <= i < encoded(data).len() implies char_sextet(
            #[trigger] encoded(data)[i],
        ) is Some by {
            if i >= 4 {
                assert(encoded(data)[i] == rest[i - 4]);
            } else {
                assert(encoded(data)[i] == head[i]);
            }
        }
    }
}

/// Decoding undoes encoding.
pub proof fn lemma_decoded_encoded(data: Seq<u8>)
    ensures
        decoded(encoded(data)) == Some(data),
    decreases data.len(),
{
    if data.len() == 0 {
    } else if data.len() == 1 {
        let x: int = data[0] as int;
        lemma_sextet_roundtrip(x / 4);
        lemma_sextet_roundtrip((x % 4) * 16);
        assert((x / 4) * 4 + ((x % 4) * 16) / 16 == x);
        assert(seq![data[0]] =~= data);
    } else if data.len() == 2 {
        let x: int = data[0] as int;
        let y: int = data[1] as int;
        let a: int = x / 4;
        let b: int = (x % 4) * 16 + y / 16;
        let c: int = (y % 16) * 4;
        lemma_sextet_roundtrip(a);
        lemma_sextet_roundtrip(b);
        lemma_sextet_roundtrip(c);
        assert(a * 4 + b / 16 == x);
        assert((b % 16) * 16 + c / 4 == y);
        assert(c % 4 == 0);
        assert(seq![data[0], data[1]] =~= data);
    } else {
        lemma_decoded_encoded(data.skip(3));
        lemma_triple(data[0], data[1], data[2]);
        let head: Seq<u8> = encode_triple(data[0] as int, data[1] as int, data[2] as int);
        let text: Seq<u8> = encoded(data);
        assert(text == head + encoded(data.skip(3)));
        assert(text.skip(4) =~= encoded(data.skip(3)));
        assert(text.len() >= 4);
        assert(text[0] == head[0] && text[1] == head[1] && text[2] == head[2] && text[3]
            == head[3]);
        assert(seq![data[0], data[1], data[2]] + data.skip(3) =~= data);
    }
}

/// Encoding undoes decoding: a text that decodes is the one spelling of its bytes.
pub proof fn lemma_encoded_decoded(text: Seq<u8>)
    requires
        decoded(text) is Some,
    ensures
        encoded(decoded(text)->0) == text,
    decreases text.len(),
{
    if text.len() == 0 {
    } else if text.len() == 2 {
        lemma_char_roundtrip(text[0]);
        lemma_char_roundtrip(text[1]);
        let a: int = char_sextet(text[0])->0;
        let b: int = char_sextet(text[1])->0;
        let x: int = a * 4 + b / 16;
        assert(x / 4 == a);
        assert((x % 4) * 16 == b);
        assert(seq![text[0], text[1]] =~= text);
    } else if text.len() == 3 {
        lemma_char_roundtrip(text[0]);
        lemma_char_roundtrip(text[1]);
        lemma_char_roundtrip(text[2]);
        let a: int = char_sextet(text[0])->0;
        let b: int = char_sextet(text[1])->0;
        let c: int = char_sextet(text[2])->0;
        let x: int = a * 4 + b / 16;
        let y: int = (b % 16) * 16 + c / 4;
        assert(x / 4 == a);
        assert((x % 4) * 16 + y / 16 == b);
        assert((y % 16) * 4 == c);
        assert(seq![text[0], text[1], text[2]] =~= text);
    } else {
        lemma_encoded_decoded(text.skip(4));
        lemma_quad(text[0], text[1], text[2], text[3]);
        let rest: Seq<u8> = decoded(text.skip(4))->0;
        let head: Seq<u8> = decode_quad(
            char_sextet(text[0])->0,
            char_sextet(text[1])->0,
            char_sextet(text[2])->0,
            char_sextet(text[3])->0,
        );
        let bytes: Seq<u8> = decoded(text)->0;
        assert(bytes == head + rest);
        assert(bytes.skip(3) =~= rest);
        assert(bytes.len() >= 3);
        assert(bytes[0] == head[0] && bytes[1] == head[1] && bytes[2] == head[2]);
        assert(seq![text[0], text[1], text[2], text[3]] + text.skip(4) =~= text);
    }
}

/// Two texts that spell the same bytes are the same text.
pub proof fn lemma_decoded_injective(a: Seq<u8>, b: Seq<u8>)
    requires
        decoded(a) is Some,
        decoded(a) == decoded(b),
    ensures
        a == b,
{
    lemma_encoded_decoded(a);
    lemma_encoded_decoded(b);
}

/// Text that decodes stays inside the alphabet, so it holds no dot.
pub proof fn lemma_decoded_in_alphabet(text: Seq<u8>)
    requires
        decoded(text) is Some,
    ensures
        in_alphabet(text),
{
    lemma_encoded_decoded(text);
    lemma_encoded_shape(decoded(text)->0);
}

/// What is known of a text once `done` has been decoded from its front and
/// `rest` is what its remainder decodes to.
pub open spec fn joined(done: Seq<u8>, rest: Option<Seq<u8>>) -> Option<Seq<u8>> {
    match rest {
        Some(tail) => Some(done + tail),
        None => None,
    }
}

fn sextet_to_char(v: u8) -> (c: u8)
    requires
        v < 64,
    ensures
        c == sextet_char(v as int),
{
    reveal(sextet_char);
    if v < 26 {
        65 + v
    } else if v < 52 {
        97 + (v - 26)
    } else if v < 62 {
        48 + (v - 52)
    } else if v == 62 {
        45
    } else {
        95
    }
}

fn char_to_sextet(c: u8) -> (r: Option<u8>)
    ensures
        match r {
            Some(v) => v < 64 && char_sextet(c) == Some(v as int),
            None => char_sextet(c) is None,
        },
{
    reveal(char_sextet);
    if 65 <= c && c <= 90 {
        Some(c - 65)
    } else if 97 <= c && c <= 122 {
        Some(c - 97 + 26)
    } else if 48 <= c && c <= 57 {
        Some(c - 48 + 52)
    } else if c == 45 {
        Some(62)
    } else if c == 95 {
        Some(63)
    } else {
        None
    }
}

/// Spells `data` as unpadded URL-safe base64.
pub fn encode(data: &[u8]) -> (text: Vec<u8>)
    ensures
        text@ == encoded(data@),
{
    let n: usize = data.len();
    let mut out: Vec<u8> = Vec::new();
    let mut i: usize = 0;
    assert(data@.skip(0) =~= data@);
    while n - i >= 3
        invariant
            i <= n,
            n == data@.len(),
            encoded(data@) == out@ + encoded(data@.skip(i as int)),
        decreases n - i,
    {
        let x: u8 = data[i];
        let y: u8 = data[i + 1];
        let z: u8 = data[i + 2];
        let ghost before: Seq<u8> = out@;
        out.push(sextet_to_char(x / 4));
        out.push(sextet_to_char((x % 4) * 16 + y / 16));
        out.push(sextet_to_char((y % 16) * 4 + z / 64));
        out.push(sextet_to_char(z % 64));
        proof {
            let rest: Seq<u8> = data@.skip(i as int);
            assert(rest.len() >= 3);
            assert(rest.skip(3) =~= data@.skip(i + 3));
            assert(out@ =~= before + encode_triple(x as int, y as int, z as int));
            assert(encoded(rest) == encode_triple(x as int, y as int, z as int) + encoded(
                rest.skip(3),
            ));
            assert(before + encoded(rest) =~= out@ + encoded(data@.skip(i + 3)));
        }
        i = i + 3;
    }
    let ghost before: Seq<u8> = out@;
    let ghost rest: Seq<u8> = data@.skip(i as int);
    if n - i == 1 {
        let x: u8 = data[i];
        out.push(sextet_to_char(x / 4));
        out.push(sextet_to_char((x % 4) * 16));
        assert(out@ =~= before + encoded(rest));
    } else if n - i == 2 {
        let x: u8 = data[i];
        let y: u8 = data[i + 1];
        out.push(sextet_to_char(x / 4));
        out.push(sextet_to_char((x % 4) * 16 + y / 16));
        out.push(sextet_to_char((y % 16) * 4));
        assert(out@ =~= before + encoded(rest));
    } else {
        assert(out@ =~= before + encoded(rest));
    }
    out
}

/// Reads unpadded URL-safe base64 back into bytes, refusing any text that
/// is not the spelling of a byte string.
pub fn decode(text: &[u8]) -> (r: Option<Vec<u8>>)
    ensures
        match r {
            Some(bytes) => decoded(text@) == Some(bytes@),
            None => decoded(text@) is None,
        },
{
    let n: usize = text.len();
    let mut out: Vec<u8> = Vec::new();
    let mut i: usize = 0;
    assert(text@.skip(0) =~= text@);
    assert(Seq::<u8>::empty() + decoded(text@)->0 =~= decoded(text@)->0);
    while n - i >= 4
        invariant
            i <= n,
            n == text@.len(),
            decoded(text@) == joined(out@, decoded(text@.skip(i as int))),
        decreases n - i,
    {
        let ghost rest: Seq<u8> = text@.skip(i as int);
        let ghost before: Seq<u8> = out@;
        assert(rest.skip(4) =~= text@.skip(i + 4));
        let a: u8 = match char_to_sextet(text[i]) {
            Some(v) => v,
            None => { return None; },
        };
        let b: u8 = match char_to_sextet(text[i + 1]) {
            Some(v) => v,
            None => { return None; },
        };
        let c: u8 = match char_to_sextet(text[i + 2]) {
            Some(v) => v,
            None => { return None; },
        };
        let d: u8 = match char_to_sextet(text[i + 3]) {
            Some(v) => v,
            None => { return None; },
        };
        out.push(a * 4 + b / 16);
        out.push((b % 16) * 16 + c / 4);
        out.push((c % 4) * 64 + d);
        proof {
            assert(out@ =~= before + decode_quad(a as int, b as int, c as int, d as int));
            if decoded(rest.skip(4)) is Some {
                let tail: Seq<u8> = decoded(rest.skip(4))->0;
                assert(before + (decode_quad(a as int, b as int, c as int, d as int) + tail)
                    =~= out@ + tail);
            }
        }
        i = i + 4;
    }
    let ghost rest: Seq<u8> = text@.skip(i as int);
    let ghost before: Seq<u8> = out@;
    if n - i == 0 {
        assert(before + Seq::<u8>::empty() =~= before);
        Some(out)
    } else if n - i == 1 {
        None
    } else if n - i == 2 {
        let a: u8 = match char_to_sextet(text[i]) {
            Some(v) => v,
            None => { return None; },
        };
        let b: u8 = match char_to_sextet(text[i + 1]) {
            Some(v) => v,
            None => { return None; },
        };
        if b % 16 != 0 {
            return None;
        }
        out.push(a * 4 + b / 16);
        assert(out@ =~= before + decoded(rest)->0);
        Some(out)
    } else {
        let a: u8 = match char_to_sextet(text[i]) {
            Some(v) => v,
            None => { return None; },
        };
        let b: u8 = match char_to_sextet(text[i + 1]) {
            Some(v) => v,
            None => { return None; },
        };
        let c: u8 = match char_to_sextet(text[i + 2]) {
            Some(v) => v,
            None => { return None; },
        };
        if c % 4 != 0 {
            return None;
        }
        out.push(a * 4 + b / 16);
        out.push((b % 16) * 16 + c / 4);
        assert(out@ =~= before + decoded(rest)->0);
        Some(out)
    }
}

} // verus!

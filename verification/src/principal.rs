//! The authenticated identity of a request, and its textual form.

use vstd::prelude::*;
use crate::numeral::{
    hex_number, hex_text, lemma_hex_number_bound, lemma_hex_roundtrip, lemma_hex_text_shape,
    lemma_pow16_values, push_hex, read_hex,
};

verus! {

/// Who is making a request: the identifier of a user account.
///
/// A principal comes out of a successful token validation and is stored
/// nowhere on its own.
#[derive(Clone, Copy, Debug, PartialEq, Eq, Structural)]
pub struct Principal {
    pub user_id: u128,
}

/// The dash that separates the groups of an identifier's text.
pub const DASH: u8 = 45;

/// Two to the power 48.
pub const GROUP_48: u128 = 0x1_0000_0000_0000;

/// Two to the power 64.
pub const GROUP_64: u128 = 0x1_0000_0000_0000_0000;

/// Two to the power 80.
pub const GROUP_80: u128 = 0x1_0000_0000_0000_0000_0000;

/// Two to the power 96.
pub const GROUP_96: u128 = 0x1_0000_0000_0000_0000_0000_0000;

/// The five groups of an identifier, most significant first, of 32, 16, 16,
/// 16 and 48 bits.
pub open spec fn groups(id: u128) -> (nat, nat, nat, nat, nat) {
    (
        (id / GROUP_96) as nat,
        ((id / GROUP_80) % 0x1_0000) as nat,
        ((id / GROUP_64) % 0x1_0000) as nat,
        ((id / GROUP_48) % 0x1_0000) as nat,
        (id % GROUP_48) as nat,
    )
}

/// The identifier made of five groups.
pub open spec fn from_groups(a: nat, b: nat, c: nat, d: nat, e: nat) -> int {
    a * GROUP_96 + b * GROUP_80 + c * GROUP_64 + d * GROUP_48 + e
}

/// The canonical text of an identifier: 32 lower-case hexadecimal digits in
/// groups of 8, 4, 4, 4 and 12, separated by dashes.
pub open spec fn uuid_text(id: u128) -> Seq<u8> {
    let g = groups(id);
    hex_text(g.0, 8) + seq![DASH] + hex_text(g.1, 4) + seq![DASH] + hex_text(g.2, 4) + seq![DASH]
        + hex_text(g.3, 4) + seq![DASH] + hex_text(g.4, 12)
}

/// The identifier that a text spells: 36 characters, dashes after the
/// groups, and hexadecimal digits of either case elsewhere.
pub open spec fn uuid_value(text: Seq<u8>) -> Option<u128> {
    if text.len() == 36 && text[8] == DASH && text[13] == DASH && text[18] == DASH && text[23]
        == DASH {
        match (
            hex_number(text.subrange(0, 8)),
            hex_number(text.subrange(9, 13)),
            hex_number(text.subrange(14, 18)),
            hex_number(text.subrange(19, 23)),
            hex_number(text.subrange(24, 36)),
        ) {
            (Some(a), Some(b), Some(c), Some(d), Some(e)) => Some(
                from_groups(a, b, c, d, e) as u128,
            ),
            _ => None,
        }
    } else {
        None
    }
}

/// The text of an identifier has 36 characters, each a lower-case
/// hexadecimal digit or a dash.
pub proof fn lemma_uuid_text_shape(id: u128)
    ensures
        uuid_text(id).len() == 36,
        forall|i: int|
            0 <= i < 36 ==> {
                let c = #[trigger] uuid_text(id)[i];
                48 <= c <= 57 || 97 <= c <= 102 || c == DASH
            },
{
    let g = groups(id);
    lemma_hex_text_shape(g.0, 8);
    lemma_hex_text_shape(g.1, 4);
    lemma_hex_text_shape(g.2, 4);
    lemma_hex_text_shape(g.3, 4);
    lemma_hex_text_shape(g.4, 12);
    let text = uuid_text(id);
    assert forall|i: int| 0 <= i < 36 implies {
        let c = #[trigger] text[i];
        48 <= c <= 57 || 97 <= c <= 102 || c == DASH
    } by {
        if i < 8 {
            assert(text[i] == hex_text(g.0, 8)[i]);
        } else if i == 8 {
        } else if i < 13 {
            assert(text[i] == hex_text(g.1, 4)[i - 9]);
        } else if i == 13 {
        } else if i < 18 {
            assert(text[i] == hex_text(g.2, 4)[i - 14]);
        } else if i == 18 {
        } else if i < 23 {
            assert(text[i] == hex_text(g.3, 4)[i - 19]);
        } else if i == 23 {
        } else {
            assert(text[i] == hex_text(g.4, 12)[i - 24]);
        }
    }
}

/// Reading the text of an identifier gives the identifier back.
pub proof fn lemma_uuid_roundtrip(id: u128)
    ensures
        uuid_value(uuid_text(id)) == Some(id),
{
    let g = groups(id);
    lemma_pow16_values();
    lemma_hex_text_shape(g.0, 8);
    lemma_hex_text_shape(g.1, 4);
    lemma_hex_text_shape(g.2, 4);
    lemma_hex_text_shape(g.3, 4);
    lemma_hex_text_shape(g.4, 12);
    lemma_hex_roundtrip(g.0, 8);
    lemma_hex_roundtrip(g.1, 4);
    lemma_hex_roundtrip(g.2, 4);
    lemma_hex_roundtrip(g.3, 4);
    lemma_hex_roundtrip(g.4, 12);
    let text = uuid_text(id);
    assert(text.subrange(0, 8) =~= hex_text(g.0, 8));
    assert(text.subrange(9, 13) =~= hex_text(g.1, 4));
    assert(text.subrange(14, 18) =~= hex_text(g.2, 4));
    assert(text.subrange(19, 23) =~= hex_text(g.3, 4));
    assert(text.subrange(24, 36) =~= hex_text(g.4, 12));
    lemma_groups_roundtrip(id);
}

/// An identifier is the sum of its five groups.
pub proof fn lemma_groups_roundtrip(id: u128)
    ensures
        ({
            let g = groups(id);
            from_groups(g.0, g.1, g.2, g.3, g.4) == id
        }),
{
    let x: int = id as int;
    let q48: int = x / 0x1_0000_0000_0000;
    let q64: int = x / 0x1_0000_0000_0000_0000;
    let q80: int = x / 0x1_0000_0000_0000_0000_0000;
    let q96: int = x / 0x1_0000_0000_0000_0000_0000_0000;
    assert(q64 == q48 / 0x1_0000);
    assert(q80 == q64 / 0x1_0000);
    assert(q96 == q80 / 0x1_0000);
}

/// Five groups within their widths make an identifier that fits 128 bits
/// and has those groups.
pub proof fn lemma_from_groups_bound(a: nat, b: nat, c: nat, d: nat, e: nat)
    requires
        a < 0x1_0000_0000,
        b < 0x1_0000,
        c < 0x1_0000,
        d < 0x1_0000,
        e < 0x1_0000_0000_0000,
    ensures
        0 <= from_groups(a, b, c, d, e) <= u128::MAX,
{
}

impl Principal {
    /// The canonical text of the principal's identifier.
    pub fn to_text(&self) -> (text: Vec<u8>)
        ensures
            text@ == uuid_text(self.user_id),
    {
        let mut out: Vec<u8> = Vec::new();
        push_uuid(self.user_id, &mut out);
        out
    }

    /// The principal whose identifier `text` spells.
    pub fn from_text(text: &[u8]) -> (r: Option<Principal>)
        ensures
            r == match uuid_value(text@) {
                Some(id) => Some(Principal { user_id: id }),
                None => None,
            },
    {
        assert(text@.subrange(0, text@.len() as int) =~= text@);
        match read_uuid(text, 0, text.len()) {
            Some(id) => Some(Principal { user_id: id }),
            None => None,
        }
    }
}

/// Appends the canonical text of `id` to `out`.
pub fn push_uuid(id: u128, out: &mut Vec<u8>)
    ensures
        final(out)@ == old(out)@ + uuid_text(id),
{
    let a: u64 = (id / GROUP_96) as u64;
    let b: u64 = ((id / GROUP_80) % 0x1_0000) as u64;
    let c: u64 = ((id / GROUP_64) % 0x1_0000) as u64;
    let d: u64 = ((id / GROUP_48) % 0x1_0000) as u64;
    let e: u64 = (id % GROUP_48) as u64;
    push_hex(a, 8, out);
    out.push(DASH);
    push_hex(b, 4, out);
    out.push(DASH);
    push_hex(c, 4, out);
    out.push(DASH);
    push_hex(d, 4, out);
    out.push(DASH);
    push_hex(e, 12, out);
    assert(out@ =~= old(out)@ + uuid_text(id));
}

/// Reads the identifier that `text[from..to]` spells.
pub fn read_uuid(text: &[u8], from: usize, to: usize) -> (r: Option<u128>)
    requires
        from <= to <= text@.len(),
    ensures
        r == uuid_value(text@.subrange(from as int, to as int)),
{
    let ghost run: Seq<u8> = text@.subrange(from as int, to as int);
    if to - from != 36 {
        return None;
    }
    if text[from + 8] != DASH || text[from + 13] != DASH || text[from + 18] != DASH || text[from
        + 23] != DASH {
        return None;
    }
    proof {
        assert(run.subrange(0, 8) =~= text@.subrange(from as int, from + 8));
        assert(run.subrange(9, 13) =~= text@.subrange(from + 9, from + 13));
        assert(run.subrange(14, 18) =~= text@.subrange(from + 14, from + 18));
        assert(run.subrange(19, 23) =~= text@.subrange(from + 19, from + 23));
        assert(run.subrange(24, 36) =~= text@.subrange(from + 24, from + 36));
    }
    let a: u64 = match read_hex(text, from, from + 8) {
        Some(v) => v,
        None => { return None; },
    };
    let b: u64 = match read_hex(text, from + 9, from + 13) {
        Some(v) => v,
        None => { return None; },
    };
    let c: u64 = match read_hex(text, from + 14, from + 18) {
        Some(v) => v,
        None => { return None; },
    };
    let d: u64 = match read_hex(text, from + 19, from + 23) {
        Some(v) => v,
        None => { return None; },
    };
    let e: u64 = match read_hex(text, from + 24, from + 36) {
        Some(v) => v,
        None => { return None; },
    };
    proof {
        lemma_pow16_values();
        lemma_hex_number_bound(run.subrange(0, 8));
        lemma_hex_number_bound(run.subrange(9, 13));
        lemma_hex_number_bound(run.subrange(14, 18));
        lemma_hex_number_bound(run.subrange(19, 23));
        lemma_hex_number_bound(run.subrange(24, 36));
        lemma_from_groups_bound(a as nat, b as nat, c as nat, d as nat, e as nat);
    }
    let id: u128 = (a as u128) * GROUP_96 + (b as u128) * GROUP_80 + (c as u128) * GROUP_64 + (
    d as u128) * GROUP_48 + (e as u128);
    Some(id)
}

} // verus!

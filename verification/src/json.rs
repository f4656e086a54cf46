//! A scanner for JSON objects.
//!
//! The scanner checks that a text is one JSON object and reports where each
//! member's name and value stand. It interprets no value: callers read the
//! members they know and pass over the others.
//!
//! Inside strings, escapes are checked for their form, and bytes from 0x20
//! on are taken as they are: whether they make well-formed UTF-8 is not
//! the scanner's concern.

use vstd::prelude::*;
use crate::numeral::{hex_value, is_digit};

verus! {

/// The double quote that opens and closes a string.
pub const QUOTE: u8 = 34;

/// The backslash that starts an escape.
pub const BACKSLASH: u8 = 92;

/// The colon between a name and its value.
pub const COLON: u8 = 58;

/// The comma between members and between elements.
pub const COMMA: u8 = 44;

/// The brace that opens an object.
pub const OPEN_BRACE: u8 = 123;

/// The brace that closes an object.
pub const CLOSE_BRACE: u8 = 125;

/// The bracket that opens an array.
pub const OPEN_BRACKET: u8 = 91;

/// The bracket that closes an array.
pub const CLOSE_BRACKET: u8 = 93;

/// The minus sign.
pub const MINUS: u8 = 45;

/// The plus sign.
pub const PLUS: u8 = 43;

/// The decimal point.
pub const POINT: u8 = 46;

/// The digit zero.
pub const ZERO: u8 = 48;

/// How deep arrays and objects may nest inside the scanned object.
pub const MAX_DEPTH: usize = 64;

/// Where a member's name and value stand in the text: the name without its
/// quotes, the value whole.
pub ghost struct MemberSpan {
    pub key_start: int,
    pub key_end: int,
    pub value_start: int,
    pub value_end: int,
}

/// Whether `c` is JSON white space.
pub open spec fn is_space(c: u8) -> bool {
    c == ' ' as u8 || c == '\t' as u8 || c == '\n' as u8 || c == '\r' as u8
}

/// Whether `c` may follow a backslash on its own.
pub open spec fn is_escape(c: u8) -> bool {
    c == '"' as u8 || c == '\\' as u8 || c == '/' as u8 || c == 'b' as u8 || c == 'f' as u8 || c == 'n' as u8
        || c == 'r' as u8 || c == 't' as u8
}

/// The first position at or after `i` that holds no white space.
pub open spec fn after_space(s: Seq<u8>, i: int) -> int
    decreases s.len() - i,
{
    if 0 <= i < s.len() && is_space(s[i]) {
        after_space(s, i + 1)
    } else {
        i
    }
}

/// The first position at or after `i` that holds no digit.
pub open spec fn after_digits(s: Seq<u8>, i: int) -> int
    decreases s.len() - i,
{
    if 0 <= i < s.len() && is_digit(s[i]) {
        after_digits(s, i + 1)
    } else {
        i
    }
}

/// The position after the closing quote of the string whose content starts
/// at `i`.
pub open spec fn string_end(s: Seq<u8>, i: int) -> Option<int>
    decreases s.len() - i,
{
    if i < 0 || i >= s.len() {
        None
    } else if s[i] == QUOTE {
        Some(i + 1)
    } else if s[i] == BACKSLASH {
        if i + 1 < s.len() && is_escape(s[i + 1]) {
            string_end(s, i + 2)
        } else if i + 5 < s.len() && s[i + 1] == 'u' as u8 && hex_value(s[i + 2]) is Some && hex_value(
            s[i + 3],
        ) is Some && hex_value(s[i + 4]) is Some && hex_value(s[i + 5]) is Some {
            string_end(s, i + 6)
        } else {
            None
        }
    } else if s[i] < 32 {
        None
    } else {
        string_end(s, i + 1)
    }
}

/// The position after the fraction that may start at `i`.
pub open spec fn fraction_end(s: Seq<u8>, i: int) -> Option<int> {
    if 0 <= i < s.len() && s[i] == POINT {
        if i + 1 < s.len() && is_digit(s[i + 1]) {
            Some(after_digits(s, i + 2))
        } else {
            None
        }
    } else {
        Some(i)
    }
}

/// The position after the exponent that may start at `i`.
pub open spec fn exponent_end(s: Seq<u8>, i: int) -> Option<int> {
    if 0 <= i < s.len() && (s[i] == 'e' as u8 || s[i] == 'E' as u8) {
        let d = if i + 1 < s.len() && (s[i + 1] == PLUS || s[i + 1] == MINUS) {
            i + 2
        } else {
            i + 1
        };
        if d < s.len() && is_digit(s[d]) {
            Some(after_digits(s, d + 1))
        } else {
            None
        }
    } else {
        Some(i)
    }
}

/// The position after the number that starts at `i`.
pub open spec fn number_end(s: Seq<u8>, i: int) -> Option<int> {
    let a = if 0 <= i < s.len() && s[i] == MINUS {
        i + 1
    } else {
        i
    };
    if a < 0 || a >= s.len() || !is_digit(s[a]) {
        None
    } else {
        let b = if s[a] == ZERO {
            a + 1
        } else {
            after_digits(s, a + 1)
        };
        match fraction_end(s, b) {
            Some(c) => exponent_end(s, c),
            None => None,
        }
    }
}

/// Whether `word` stands in `s` at `i`.
pub open spec fn stands_at(s: Seq<u8>, i: int, word: Seq<u8>) -> bool {
    0 <= i && i + word.len() <= s.len() && s.subrange(i, i + word.len()) == word
}

/// The word `true`.
pub open spec fn word_true() -> Seq<u8> {
    seq!['t' as u8, 'r' as u8, 'u' as u8, 'e' as u8]
}

/// The word `false`.
pub open spec fn word_false() -> Seq<u8> {
    seq!['f' as u8, 'a' as u8, 'l' as u8, 's' as u8, 'e' as u8]
}

/// The word `null`.
pub open spec fn word_null() -> Seq<u8> {
    seq!['n' as u8, 'u' as u8, 'l' as u8, 'l' as u8]
}

/// The position after the literal name that starts at `i`.
pub open spec fn literal_end(s: Seq<u8>, i: int) -> Option<int> {
    if stands_at(s, i, word_true()) {
        Some(i + 4)
    } else if stands_at(s, i, word_false()) {
        Some(i + 5)
    } else if stands_at(s, i, word_null()) {
        Some(i + 4)
    } else {
        None
    }
}

/// The position after the value that starts at `i`, with `depth` levels of
/// arrays and objects left to descend.
pub open spec fn value_end(s: Seq<u8>, i: int, depth: nat) -> Option<int>
    decreases depth, s.len() - i, 0nat,
{
    if i < 0 || i >= s.len() {
        None
    } else if s[i] == QUOTE {
        string_end(s, i + 1)
    } else if s[i] == OPEN_BRACE {
        if depth == 0 {
            None
        } else {
            match object_from(s, i + 1, (depth - 1) as nat) {
                Some((_, end)) => Some(end),
                None => None,
            }
        }
    } else if s[i] == OPEN_BRACKET {
        if depth == 0 {
            None
        } else {
            array_from(s, i + 1, (depth - 1) as nat)
        }
    } else if s[i] == 't' as u8 || s[i] == 'f' as u8 || s[i] == 'n' as u8 {
        literal_end(s, i)
    } else {
        number_end(s, i)
    }
}

/// The members of the object whose opening brace stands just before `i`,
/// and the position after its closing brace.
pub open spec fn object_from(s: Seq<u8>, i: int, depth: nat) -> Option<(Seq<MemberSpan>, int)>
    decreases depth, s.len() - i, 2nat,
{
    let j = after_space(s, i);
    if 0 <= j < s.len() && s[j] == CLOSE_BRACE {
        Some((Seq::empty(), j + 1))
    } else if j < i || j >= s.len() {
        None
    } else {
        members_from(s, j, depth)
    }
}

/// The members from the one whose name starts at `i` up to the closing
/// brace, and the position after that brace.
pub open spec fn members_from(s: Seq<u8>, i: int, depth: nat) -> Option<(Seq<MemberSpan>, int)>
    decreases depth, s.len() - i, 1nat,
{
    if i < 0 || i >= s.len() || s[i] != QUOTE {
        None
    } else {
        match string_end(s, i + 1) {
            None => None,
            Some(k) => {
                let c = after_space(s, k);
                if c < 0 || c >= s.len() || s[c] != COLON {
                    None
                } else {
                    let v = after_space(s, c + 1);
                    if v < i || v >= s.len() {
                        None
                    } else {
                        match value_end(s, v, depth) {
                            None => None,
                            Some(e) => {
                                let t = after_space(s, e);
                                let member = MemberSpan {
                                    key_start: i + 1,
                                    key_end: k - 1,
                                    value_start: v,
                                    value_end: e,
                                };
                                if t < 0 || t >= s.len() {
                                    None
                                } else if s[t] == CLOSE_BRACE {
                                    Some((seq![member], t + 1))
                                } else if s[t] == COMMA {
                                    let n = after_space(s, t + 1);
                                    if n <= i || n >= s.len() {
                                        None
                                    } else {
                                        match members_from(s, n, depth) {
                                            Some((rest, end)) => Some((seq![member] + rest, end)),
                                            None => None,
                                        }
                                    }
                                } else {
                                    None
                                }
                            },
                        }
                    }
                }
            },
        }
    }
}

/// The position after the closing bracket of the array whose opening
/// bracket stands just before `i`.
pub open spec fn array_from(s: Seq<u8>, i: int, depth: nat) -> Option<int>
    decreases depth, s.len() - i, 2nat,
{
    let j = after_space(s, i);
    if 0 <= j < s.len() && s[j] == CLOSE_BRACKET {
        Some(j + 1)
    } else if j < i || j >= s.len() {
        None
    } else {
        elements_from(s, j, depth)
    }
}

/// The position after the closing bracket that ends the elements from `i`.
pub open spec fn elements_from(s: Seq<u8>, i: int, depth: nat) -> Option<int>
    decreases depth, s.len() - i, 1nat,
{
    match value_end(s, i, depth) {
        None => None,
        Some(e) => {
            let t = after_space(s, e);
            if t < 0 || t >= s.len() {
                None
            } else if s[t] == CLOSE_BRACKET {
                Some(t + 1)
            } else if s[t] == COMMA {
                let n = after_space(s, t + 1);
                if n <= i || n >= s.len() {
                    None
                } else {
                    elements_from(s, n, depth)
                }
            } else {
                None
            }
        },
    }
}

/// The members of the one JSON object that `s` holds, white space around it
/// allowed; `None` where `s` is anything else.
pub open spec fn document(s: Seq<u8>) -> Option<Seq<MemberSpan>> {
    let i = after_space(s, 0);
    if 0 <= i < s.len() && s[i] == OPEN_BRACE {
        match object_from(s, i + 1, MAX_DEPTH as nat) {
            Some((members, end)) => if after_space(s, end) == s.len() {
                Some(members)
            } else {
                None
            },
            None => None,
        }
    } else {
        None
    }
}

/// White space is passed over forwards, never beyond the end of the text.
pub proof fn lemma_after_space_bounds(s: Seq<u8>, i: int)
    requires
        0 <= i <= s.len(),
    ensures
        i <= after_space(s, i) <= s.len(),
    decreases s.len() - i,
{
    if i < s.len() && is_space(s[i]) {
        lemma_after_space_bounds(s, i + 1);
    }
}

/// Digits are passed over forwards, never beyond the end of the text.
pub proof fn lemma_after_digits_bounds(s: Seq<u8>, i: int)
    requires
        0 <= i <= s.len(),
    ensures
        i <= after_digits(s, i) <= s.len(),
    decreases s.len() - i,
{
    if i < s.len() && is_digit(s[i]) {
        lemma_after_digits_bounds(s, i + 1);
    }
}

/// A string ends after its content starts, and inside the text.
pub proof fn lemma_string_end_bounds(s: Seq<u8>, i: int)
    requires
        string_end(s, i) is Some,
    ensures
        i < string_end(s, i)->0 <= s.len(),
    decreases s.len() - i,
{
    if s[i] == QUOTE {
    } else if s[i] == BACKSLASH {
        if i + 1 < s.len() && is_escape(s[i + 1]) {
            lemma_string_end_bounds(s, i + 2);
        } else {
            lemma_string_end_bounds(s, i + 6);
        }
    } else {
        lemma_string_end_bounds(s, i + 1);
    }
}

fn skip_space(s: &[u8], i: usize) -> (j: usize)
    requires
        i <= s@.len(),
    ensures
        j == after_space(s@, i as int),
        i <= j <= s@.len(),
{
    let mut j: usize = i;
    while j < s.len() && (s[j] == 32 || s[j] == 9 || s[j] == 10 || s[j] == 13)
        invariant
            i <= j <= s@.len(),
            after_space(s@, i as int) == after_space(s@, j as int),
        decreases s@.len() - j,
    {
        j = j + 1;
    }
    j
}

fn skip_digits(s: &[u8], i: usize) -> (j: usize)
    requires
        i <= s@.len(),
    ensures
        j == after_digits(s@, i as int),
        i <= j <= s@.len(),
{
    let mut j: usize = i;
    while j < s.len() && 48 <= s[j] && s[j] <= 57
        invariant
            i <= j <= s@.len(),
            after_digits(s@, i as int) == after_digits(s@, j as int),
        decreases s@.len() - j,
    {
        j = j + 1;
    }
    j
}

fn is_hex_digit(c: u8) -> (r: bool)
    ensures
        r == (hex_value(c) is Some),
{
    (48 <= c && c <= 57) || (97 <= c && c <= 102) || (65 <= c && c <= 70)
}

fn is_escape_char(c: u8) -> (r: bool)
    ensures
        r == is_escape(c),
{
    c == 34 || c == 92 || c == 47 || c == 98 || c == 102 || c == 110 || c == 114 || c == 116
}

fn scan_string(s: &[u8], i: usize) -> (r: Option<usize>)
    requires
        i <= s@.len(),
    ensures
        match r {
            Some(end) => string_end(s@, i as int) == Some(end as int) && i < end <= s@.len(),
            None => string_end(s@, i as int) is None,
        },
{
    let n: usize = s.len();
    let mut j: usize = i;
    loop
        invariant
            i <= j <= n,
            n == s@.len(),
            string_end(s@, i as int) == string_end(s@, j as int),
        decreases n - j,
    {
        if j >= n {
            return None;
        }
        let c: u8 = s[j];
        if c == QUOTE {
            return Some(j + 1);
        } else if c == BACKSLASH {
            if n - j > 1 && is_escape_char(s[j + 1]) {
                j = j + 2;
            } else if n - j > 5 && s[j + 1] == 117 && is_hex_digit(s[j + 2]) && is_hex_digit(
                s[j + 3],
            ) && is_hex_digit(s[j + 4]) && is_hex_digit(s[j + 5]) {
                j = j + 6;
            } else {
                return None;
            }
        } else if c < 32 {
            return None;
        } else {
            j = j + 1;
        }
    }
}

fn scan_fraction(s: &[u8], i: usize) -> (r: Option<usize>)
    requires
        i <= s@.len(),
    ensures
        match r {
            Some(end) => fraction_end(s@, i as int) == Some(end as int) && i <= end <= s@.len(),
            None => fraction_end(s@, i as int) is None,
        },
{
    let n: usize = s.len();
    if i < n && s[i] == POINT {
        if n - i > 1 && 48 <= s[i + 1] && s[i + 1] <= 57 {
            Some(skip_digits(s, i + 2))
        } else {
            None
        }
    } else {
        Some(i)
    }
}

fn scan_exponent(s: &[u8], i: usize) -> (r: Option<usize>)
    requires
        i <= s@.len(),
    ensures
        match r {
            Some(end) => exponent_end(s@, i as int) == Some(end as int) && i <= end <= s@.len(),
            None => exponent_end(s@, i as int) is None,
        },
{
    let n: usize = s.len();
    if i < n && (s[i] == 101 || s[i] == 69) {
        let d: usize = if n - i > 1 && (s[i + 1] == PLUS || s[i + 1] == MINUS) {
            i + 2
        } else {
            i + 1
        };
        if d < n && 48 <= s[d] && s[d] <= 57 {
            Some(skip_digits(s, d + 1))
        } else {
            None
        }
    } else {
        Some(i)
    }
}

fn scan_number(s: &[u8], i: usize) -> (r: Option<usize>)
    requires
        i <= s@.len(),
    ensures
        match r {
            Some(end) => number_end(s@, i as int) == Some(end as int) && i < end <= s@.len(),
            None => number_end(s@, i as int) is None,
        },
{
    let n: usize = s.len();
    let a: usize = if i < n && s[i] == MINUS {
        i + 1
    } else {
        i
    };
    if a >= n || !(48 <= s[a] && s[a] <= 57) {
        return None;
    }
    let b: usize = if s[a] == ZERO {
        a + 1
    } else {
        skip_digits(s, a + 1)
    };
    match scan_fraction(s, b) {
        Some(c) => scan_exponent(s, c),
        None => None,
    }
}

fn word_at(s: &[u8], i: usize, word: &[u8]) -> (r: bool)
    requires
        i <= s@.len(),
    ensures
        r == stands_at(s@, i as int, word@),
{
    let n: usize = s.len();
    let w: usize = word.len();
    if n - i < w {
        return false;
    }
    let mut k: usize = 0;
    while k < w
        invariant
            k <= w,
            w == word@.len(),
            n == s@.len(),
            i + w <= n,
            forall|x: int| 0 <= x < k ==> s@[i + x] == word@[x],
        decreases w - k,
    {
        if s[i + k] != word[k] {
            assert(s@.subrange(i as int, i + w)[k as int] != word@[k as int]);
            return false;
        }
        k = k + 1;
    }
    assert(s@.subrange(i as int, i + w) =~= word@);
    true
}

fn scan_literal(s: &[u8], i: usize) -> (r: Option<usize>)
    requires
        i <= s@.len(),
    ensures
        match r {
            Some(end) => literal_end(s@, i as int) == Some(end as int) && i < end <= s@.len(),
            None => literal_end(s@, i as int) is None,
        },
{
    let n: usize = s.len();
    let t: [u8; 4] = [116, 114, 117, 101];
    let f: [u8; 5] = [102, 97, 108, 115, 101];
    let z: [u8; 4] = [110, 117, 108, 108];
    let word_t: &[u8] = t.as_slice();
    let word_f: &[u8] = f.as_slice();
    let word_z: &[u8] = z.as_slice();
    assert(word_t@ =~= word_true());
    assert(word_f@ =~= word_false());
    assert(word_z@ =~= word_null());
    if word_at(s, i, word_t) {
        Some(i + 4)
    } else if word_at(s, i, word_f) {
        Some(i + 5)
    } else if word_at(s, i, word_z) {
        Some(i + 4)
    } else {
        None
    }
}

/// Where a member's name and value stand in a scanned text.
#[derive(Clone, Copy, Debug)]
pub struct Member {
    pub key_start: usize,
    pub key_end: usize,
    pub value_start: usize,
    pub value_end: usize,
}

impl View for Member {
    type V = MemberSpan;

    open spec fn view(&self) -> MemberSpan {
        MemberSpan {
            key_start: self.key_start as int,
            key_end: self.key_end as int,
            value_start: self.value_start as int,
            value_end: self.value_end as int,
        }
    }
}

/// The spans of a list of members.
pub open spec fn spans(members: Seq<Member>) -> Seq<MemberSpan> {
    Seq::new(members.len(), |k: int| members[k]@)
}

/// Whether a member's name and value lie in order inside a text of `len` bytes.
pub open spec fn in_order(m: MemberSpan, len: int) -> bool {
    0 <= m.key_start <= m.key_end < m.value_start < m.value_end <= len
}

/// What is known of a member list once `done` has been read from its front
/// and `rest` is what follows.
pub open spec fn prefixed(done: Seq<MemberSpan>, rest: Option<(Seq<MemberSpan>, int)>) -> Option<
    (Seq<MemberSpan>, int),
> {
    match rest {
        Some((tail, end)) => Some((done + tail, end)),
        None => None,
    }
}

fn scan_value(s: &[u8], i: usize, depth: usize) -> (r: Option<usize>)
    requires
        i <= s@.len(),
    ensures
        match r {
            Some(end) => value_end(s@, i as int, depth as nat) == Some(end as int) && i < end
                <= s@.len(),
            None => value_end(s@, i as int, depth as nat) is None,
        },
    decreases depth, s@.len() - i, 0nat,
{
    if i >= s.len() {
        return None;
    }
    let c: u8 = s[i];
    if c == QUOTE {
        scan_string(s, i + 1)
    } else if c == OPEN_BRACE {
        if depth == 0 {
            None
        } else {
            match scan_object(s, i + 1, depth - 1) {
                Some((_, end)) => Some(end),
                None => None,
            }
        }
    } else if c == OPEN_BRACKET {
        if depth == 0 {
            None
        } else {
            scan_array(s, i + 1, depth - 1)
        }
    } else if c == 116 || c == 102 || c == 110 {
        scan_literal(s, i)
    } else {
        scan_number(s, i)
    }
}

fn scan_object(s: &[u8], i: usize, depth: usize) -> (r: Option<(Vec<Member>, usize)>)
    requires
        i <= s@.len(),
    ensures
        match r {
            Some((members, end)) => {
                &&& object_from(s@, i as int, depth as nat) == Some((spans(members@), end as int))
                &&& i < end <= s@.len()
                &&& forall|k: int|
                    0 <= k < members@.len() ==> in_order(#[trigger] members@[k]@, s@.len() as int)
            },
            None => object_from(s@, i as int, depth as nat) is None,
        },
    decreases depth, s@.len() - i, 2nat,
{
    let j: usize = skip_space(s, i);
    if j < s.len() && s[j] == CLOSE_BRACE {
        let members: Vec<Member> = Vec::new();
        assert(spans(members@) =~= Seq::<MemberSpan>::empty());
        return Some((members, j + 1));
    }
    if j >= s.len() {
        return None;
    }
    scan_members(s, j, depth)
}

fn scan_members(s: &[u8], start: usize, depth: usize) -> (r: Option<(Vec<Member>, usize)>)
    requires
        start < s@.len(),
    ensures
        match r {
            Some((members, end)) => {
                &&& members_from(s@, start as int, depth as nat) == Some(
                    (spans(members@), end as int),
                )
                &&& start < end <= s@.len()
                &&& forall|k: int|
                    0 <= k < members@.len() ==> in_order(#[trigger] members@[k]@, s@.len() as int)
            },
            None => members_from(s@, start as int, depth as nat) is None,
        },
    decreases depth, s@.len() - start, 1nat,
{
    let n: usize = s.len();
    let mut members: Vec<Member> = Vec::new();
    let mut i: usize = start;
    proof {
        assert(spans(members@) =~= Seq::<MemberSpan>::empty());
        lemma_prefixed_empty(members_from(s@, start as int, depth as nat));
    }
    loop
        invariant
            start <= i < n,
            n == s@.len(),
            members_from(s@, start as int, depth as nat) == prefixed(
                spans(members@),
                members_from(s@, i as int, depth as nat),
            ),
            forall|k: int|
                0 <= k < members@.len() ==> in_order(#[trigger] members@[k]@, s@.len() as int),
        decreases n - i,
    {
        if s[i] != QUOTE {
            return None;
        }
        let k: usize = match scan_string(s, i + 1) {
            Some(k) => k,
            None => { return None; },
        };
        let c: usize = skip_space(s, k);
        if c >= n || s[c] != COLON {
            return None;
        }
        let v: usize = skip_space(s, c + 1);
        if v >= n {
            return None;
        }
        let e: usize = match scan_value(s, v, depth) {
            Some(e) => e,
            None => { return None; },
        };
        let t: usize = skip_space(s, e);
        if t >= n {
            return None;
        }
        let member: Member = Member { key_start: i + 1, key_end: k - 1, value_start: v, value_end: e };
        let ghost before: Seq<Member> = members@;
        if s[t] == CLOSE_BRACE {
            members.push(member);
            proof {
                assert(spans(members@) =~= spans(before) + seq![member@]);
            }
            return Some((members, t + 1));
        } else if s[t] == COMMA {
            let next: usize = skip_space(s, t + 1);
            if next >= n {
                return None;
            }
            members.push(member);
            proof {
                assert(spans(members@) =~= spans(before) + seq![member@]);
                lemma_prefixed_step(
                    spans(before),
                    member@,
                    members_from(s@, next as int, depth as nat),
                );
            }
            i = next;
        } else {
            return None;
        }
    }
}

/// Nothing read yet leaves what follows as it is.
pub proof fn lemma_prefixed_empty(rest: Option<(Seq<MemberSpan>, int)>)
    ensures
        prefixed(Seq::empty(), rest) == rest,
{
    match rest {
        Some((tail, end)) => {
            assert(Seq::<MemberSpan>::empty() + tail =~= tail);
        },
        None => {},
    }
}

/// Reading one more member moves it from what follows to what is done.
pub proof fn lemma_prefixed_step(
    done: Seq<MemberSpan>,
    member: MemberSpan,
    rest: Option<(Seq<MemberSpan>, int)>,
)
    ensures
        prefixed(done, prefixed(seq![member], rest)) == prefixed(done + seq![member], rest),
{
    match rest {
        Some((tail, end)) => {
            assert(done + (seq![member] + tail) =~= (done + seq![member]) + tail);
        },
        None => {},
    }
}

fn scan_array(s: &[u8], i: usize, depth: usize) -> (r: Option<usize>)
    requires
        i <= s@.len(),
    ensures
        match r {
            Some(end) => array_from(s@, i as int, depth as nat) == Some(end as int) && i < end
                <= s@.len(),
            None => array_from(s@, i as int, depth as nat) is None,
        },
    decreases depth, s@.len() - i, 2nat,
{
    let j: usize = skip_space(s, i);
    if j < s.len() && s[j] == CLOSE_BRACKET {
        return Some(j + 1);
    }
    if j >= s.len() {
        return None;
    }
    scan_elements(s, j, depth)
}

fn scan_elements(s: &[u8], start: usize, depth: usize) -> (r: Option<usize>)
    requires
        start < s@.len(),
    ensures
        match r {
            Some(end) => elements_from(s@, start as int, depth as nat) == Some(end as int) && start
                < end <= s@.len(),
            None => elements_from(s@, start as int, depth as nat) is None,
        },
    decreases depth, s@.len() - start, 1nat,
{
    let n: usize = s.len();
    let mut i: usize = start;
    loop
        invariant
            start <= i < n,
            n == s@.len(),
            elements_from(s@, start as int, depth as nat) == elements_from(
                s@,
                i as int,
                depth as nat,
            ),
        decreases n - i,
    {
        let e: usize = match scan_value(s, i, depth) {
            Some(e) => e,
            None => { return None; },
        };
        let t: usize = skip_space(s, e);
        if t >= n {
            return None;
        }
        if s[t] == CLOSE_BRACKET {
            return Some(t + 1);
        } else if s[t] == COMMA {
            let next: usize = skip_space(s, t + 1);
            if next >= n {
                return None;
            }
            i = next;
        } else {
            return None;
        }
    }
}

/// Scans `s` as one JSON object and lists where its members stand.
///
/// Returns `None` where `s` is not exactly one object, or nests arrays and
/// objects more than `MAX_DEPTH` levels deep inside it.
pub fn parse_object(s: &[u8]) -> (r: Option<Vec<Member>>)
    ensures
        match r {
            Some(members) => {
                &&& document(s@) == Some(spans(members@))
                &&& forall|k: int|
                    0 <= k < members@.len() ==> in_order(#[trigger] members@[k]@, s@.len() as int)
            },
            None => document(s@) is None,
        },
{
    let n: usize = s.len();
    let i: usize = skip_space(s, 0);
    if i >= n || s[i] != OPEN_BRACE {
        return None;
    }
    match scan_object(s, i + 1, MAX_DEPTH) {
        Some((members, end)) => {
            if skip_space(s, end) == n {
                Some(members)
            } else {
                None
            }
        },
        None => None,
    }
}

/// The name of a member, as written between its quotes.
pub open spec fn key_bytes(s: Seq<u8>, m: MemberSpan) -> Seq<u8> {
    s.subrange(m.key_start, m.key_end)
}

/// The value of a member, as written.
pub open spec fn value_bytes(s: Seq<u8>, m: MemberSpan) -> Seq<u8> {
    s.subrange(m.value_start, m.value_end)
}

/// How many of the members are written with the name `name`.
pub open spec fn named_count(s: Seq<u8>, members: Seq<MemberSpan>, name: Seq<u8>) -> nat
    decreases members.len(),
{
    if members.len() == 0 {
        0
    } else {
        named_count(s, members.drop_last(), name) + if key_bytes(s, members.last()) == name {
            1nat
        } else {
            0nat
        }
    }
}

/// The last of the members written with the name `name`.
pub open spec fn named_last(s: Seq<u8>, members: Seq<MemberSpan>, name: Seq<u8>) -> Option<
    MemberSpan,
>
    decreases members.len(),
{
    if members.len() == 0 {
        None
    } else if key_bytes(s, members.last()) == name {
        Some(members.last())
    } else {
        named_last(s, members.drop_last(), name)
    }
}

/// The value of the one member written with the name `name`; `None` where
/// no member or more than one has that name. Names are compared as written:
/// an escaped spelling of a name is another name.
pub open spec fn field(s: Seq<u8>, members: Seq<MemberSpan>, name: Seq<u8>) -> Option<MemberSpan> {
    if named_count(s, members, name) == 1 {
        named_last(s, members, name)
    } else {
        None
    }
}

/// Whether `s[from..to]` holds exactly the bytes of `name`.
pub fn bytes_equal(s: &[u8], from: usize, to: usize, name: &[u8]) -> (r: bool)
    requires
        from <= to <= s@.len(),
    ensures
        r == (s@.subrange(from as int, to as int) == name@),
{
    let w: usize = name.len();
    if to - from != w {
        return false;
    }
    let mut k: usize = 0;
    while k < w
        invariant
            k <= w,
            w == name@.len(),
            from + w == to,
            to <= s@.len(),
            forall|x: int| 0 <= x < k ==> s@[from + x] == name@[x],
        decreases w - k,
    {
        if s[from + k] != name[k] {
            assert(s@.subrange(from as int, to as int)[k as int] != name@[k as int]);
            return false;
        }
        k = k + 1;
    }
    assert(s@.subrange(from as int, to as int) =~= name@);
    true
}

/// Finds the one member of `members` whose name is written as `name`.
pub fn find_field(s: &[u8], members: &Vec<Member>, name: &[u8]) -> (r: Option<Member>)
    requires
        forall|k: int|
            0 <= k < members@.len() ==> in_order(#[trigger] members@[k]@, s@.len() as int),
    ensures
        match r {
            Some(m) => field(s@, spans(members@), name@) == Some(m@) && in_order(
                m@,
                s@.len() as int,
            ),
            None => field(s@, spans(members@), name@) is None,
        },
{
    let n: usize = members.len();
    let mut count: usize = 0;
    let mut found: Option<Member> = None;
    let mut i: usize = 0;
    let ghost all: Seq<MemberSpan> = spans(members@);
    assert(all.take(0) =~= Seq::<MemberSpan>::empty());
    while i < n
        invariant
            i <= n,
            n == members@.len(),
            all == spans(members@),
            count <= i,
            count == named_count(s@, all.take(i as int), name@),
            match found {
                Some(m) => named_last(s@, all.take(i as int), name@) == Some(m@) && in_order(
                    m@,
                    s@.len() as int,
                ),
                None => named_last(s@, all.take(i as int), name@) is None,
            },
            forall|k: int|
                0 <= k < members@.len() ==> in_order(#[trigger] members@[k]@, s@.len() as int),
        decreases n - i,
    {
        let m: Member = members[i];
        proof {
            assert(in_order(members@[i as int]@, s@.len() as int));
            assert(all.take(i + 1).drop_last() =~= all.take(i as int));
            assert(all.take(i + 1).last() == m@);
        }
        if bytes_equal(s, m.key_start, m.key_end, name) {
            count = count + 1;
            found = Some(m);
        }
        i = i + 1;
    }
    assert(all.take(n as int) =~= all);
    if count == 1 {
        found
    } else {
        None
    }
}

/// The position after a scanned member list.
pub open spec fn list_end(r: Option<(Seq<MemberSpan>, int)>) -> int {
    match r {
        Some((_, end)) => end,
        None => 0,
    }
}

/// A value ends after it starts, and inside the text.
pub proof fn lemma_value_end_bounds(s: Seq<u8>, i: int, depth: nat)
    requires
        value_end(s, i, depth) is Some,
    ensures
        0 <= i < value_end(s, i, depth)->0 <= s.len(),
    decreases depth, s.len() - i, 0nat,
{
    if s[i] == QUOTE {
        lemma_string_end_bounds(s, i + 1);
    } else if s[i] == OPEN_BRACE {
        lemma_object_from_bounds(s, i + 1, (depth - 1) as nat);
    } else if s[i] == OPEN_BRACKET {
        lemma_array_from_bounds(s, i + 1, (depth - 1) as nat);
    } else if s[i] == 116 || s[i] == 102 || s[i] == 110 {
    } else {
        lemma_number_end_bounds(s, i);
    }
}

/// A number ends after it starts, and inside the text.
pub proof fn lemma_number_end_bounds(s: Seq<u8>, i: int)
    requires
        0 <= i,
        number_end(s, i) is Some,
    ensures
        i < number_end(s, i)->0 <= s.len(),
{
    let a = if i < s.len() && s[i] == MINUS {
        i + 1
    } else {
        i
    };
    lemma_after_digits_bounds(s, a + 1);
    let b = if s[a] == ZERO {
        a + 1
    } else {
        after_digits(s, a + 1)
    };
    if b < s.len() && s[b] == POINT {
        lemma_after_digits_bounds(s, b + 2);
    }
    let c = fraction_end(s, b)->0;
    if c < s.len() && (s[c] == 101 || s[c] == 69) {
        let d = if c + 1 < s.len() && (s[c + 1] == PLUS || s[c + 1] == MINUS) {
            c + 2
        } else {
            c + 1
        };
        lemma_after_digits_bounds(s, d + 1);
    }
}

/// An object ends after its opening brace, and inside the text.
pub proof fn lemma_object_from_bounds(s: Seq<u8>, i: int, depth: nat)
    requires
        0 <= i,
        object_from(s, i, depth) is Some,
    ensures
        i < list_end(object_from(s, i, depth)) <= s.len(),
    decreases depth, s.len() - i, 2nat,
{
    let j = after_space(s, i);
    if i <= s.len() {
        lemma_after_space_bounds(s, i);
    }
    if 0 <= j < s.len() && s[j] == CLOSE_BRACE {
    } else {
        lemma_members_from_bounds(s, j, depth);
    }
}

/// A member list ends after it starts, and inside the text.
pub proof fn lemma_members_from_bounds(s: Seq<u8>, i: int, depth: nat)
    requires
        members_from(s, i, depth) is Some,
    ensures
        i < list_end(members_from(s, i, depth)) <= s.len(),
    decreases depth, s.len() - i, 1nat,
{
    let k = string_end(s, i + 1)->0;
    lemma_string_end_bounds(s, i + 1);
    let c = after_space(s, k);
    lemma_after_space_bounds(s, k);
    let v = after_space(s, c + 1);
    lemma_after_space_bounds(s, c + 1);
    let e = value_end(s, v, depth)->0;
    lemma_value_end_bounds(s, v, depth);
    let t = after_space(s, e);
    lemma_after_space_bounds(s, e);
    if s[t] == CLOSE_BRACE {
    } else {
        let n = after_space(s, t + 1);
        lemma_after_space_bounds(s, t + 1);
        lemma_members_from_bounds(s, n, depth);
    }
}

/// An array ends after its opening bracket, and inside the text.
pub proof fn lemma_array_from_bounds(s: Seq<u8>, i: int, depth: nat)
    requires
        0 <= i,
        array_from(s, i, depth) is Some,
    ensures
        i < array_from(s, i, depth)->0 <= s.len(),
    decreases depth, s.len() - i, 2nat,
{
    let j = after_space(s, i);
    if i <= s.len() {
        lemma_after_space_bounds(s, i);
    }
    if 0 <= j < s.len() && s[j] == CLOSE_BRACKET {
    } else {
        lemma_elements_from_bounds(s, j, depth);
    }
}

/// An element list ends after it starts, and inside the text.
pub proof fn lemma_elements_from_bounds(s: Seq<u8>, i: int, depth: nat)
    requires
        elements_from(s, i, depth) is Some,
    ensures
        i < elements_from(s, i, depth)->0 <= s.len(),
    decreases depth, s.len() - i, 1nat,
{
    let e = value_end(s, i, depth)->0;
    lemma_value_end_bounds(s, i, depth);
    let t = after_space(s, e);
    lemma_after_space_bounds(s, e);
    if s[t] == CLOSE_BRACKET {
    } else {
        let n = after_space(s, t + 1);
        lemma_after_space_bounds(s, t + 1);
        lemma_elements_from_bounds(s, n, depth);
    }
}

} // verus!

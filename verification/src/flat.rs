//! Flat JSON objects: two members with plain names, as this crate writes
//! them, and the proof that the scanner reads them back.

use vstd::prelude::*;
use crate::json::{
    after_digits, after_space, document, exponent_end, field, fraction_end, is_space, key_bytes,
    members_from, named_count, named_last, number_end, object_from, string_end, value_bytes,
    value_end, MemberSpan, BACKSLASH, CLOSE_BRACE, COLON, COMMA, MAX_DEPTH, MINUS, OPEN_BRACE,
    QUOTE,
};
use crate::numeral::{dec_text, int_text, is_digit, lemma_dec_text_shape};

verus! {

/// Whether `text` can stand between quotes as it is: no quote, no
/// backslash and no control character.
pub open spec fn plain(text: Seq<u8>) -> bool {
    forall|i: int|
        0 <= i < text.len() ==> {
            let c = #[trigger] text[i];
            c >= 32 && c != QUOTE && c != BACKSLASH
        }
}

/// `text` between quotes.
pub open spec fn quoted(text: Seq<u8>) -> Seq<u8> {
    seq![QUOTE] + text + seq![QUOTE]
}

/// The object `{"k1":v1,"k2":v2}`, written without white space.
#[verifier::opaque]
pub open spec fn pair_text(k1: Seq<u8>, v1: Seq<u8>, k2: Seq<u8>, v2: Seq<u8>) -> Seq<u8> {
    seq![OPEN_BRACE] + quoted(k1) + seq![COLON] + v1 + seq![COMMA] + quoted(k2) + seq![COLON] + v2
        + seq![CLOSE_BRACE]
}

/// Where the first member of `pair_text` stands.
pub open spec fn first_span(k1: Seq<u8>, v1: Seq<u8>) -> MemberSpan {
    let a: int = k1.len() as int;
    let b: int = v1.len() as int;
    MemberSpan { key_start: 2, key_end: 2 + a, value_start: 4 + a, value_end: 4 + a + b }
}

/// Where the second member of `pair_text` stands.
pub open spec fn second_span(k1: Seq<u8>, v1: Seq<u8>, k2: Seq<u8>, v2: Seq<u8>) -> MemberSpan {
    let base: int = 6 + k1.len() as int + v1.len() as int;
    let c: int = k2.len() as int;
    let d: int = v2.len() as int;
    MemberSpan {
        key_start: base,
        key_end: base + c,
        value_start: base + c + 2,
        value_end: base + c + 2 + d,
    }
}

/// A run of plain characters closed by a quote is the content of a string.
pub proof fn lemma_plain_string(s: Seq<u8>, i: int, j: int)
    requires
        0 <= i <= j < s.len(),
        plain(s.subrange(i, j)),
        s[j] == QUOTE,
    ensures
        string_end(s, i) == Some(j + 1),
    decreases j - i,
{
    if i < j {
        assert(s.subrange(i, j)[0] == s[i]);
        assert forall|x: int| 0 <= x < j - (i + 1) implies {
            let c = #[trigger] s.subrange(i + 1, j)[x];
            c >= 32 && c != QUOTE && c != BACKSLASH
        } by {
            assert(s.subrange(i + 1, j)[x] == s.subrange(i, j)[x + 1]);
        }
        lemma_plain_string(s, i + 1, j);
    }
}

/// A run of digits ends where the first other character stands.
pub proof fn lemma_digit_run(s: Seq<u8>, i: int, j: int)
    requires
        0 <= i <= j <= s.len(),
        forall|x: int| i <= x < j ==> is_digit(#[trigger] s[x]),
        j == s.len() || !is_digit(s[j]),
    ensures
        after_digits(s, i) == j,
    decreases j - i,
{
    if i < j {
        lemma_digit_run(s, i + 1, j);
    }
}

/// The text of an integer, followed by a character that continues no
/// number, is a number that ends where the text ends.
pub proof fn lemma_int_number(s: Seq<u8>, i: int, v: int)
    requires
        0 <= i,
        i + int_text(v).len() < s.len(),
        s.subrange(i, i + int_text(v).len()) == int_text(v),
        ({
            let c = s[i + int_text(v).len()];
            !is_digit(c) && c != 46 && c != 101 && c != 69
        }),
    ensures
        number_end(s, i) == Some(i + int_text(v).len()),
        value_end(s, i, MAX_DEPTH as nat) == Some(i + int_text(v).len()),
{
    let text = int_text(v);
    let j = i + text.len();
    let magnitude: nat = if v < 0 {
        (-v) as nat
    } else {
        v as nat
    };
    let digits = dec_text(magnitude);
    lemma_dec_text_shape(magnitude);
    let a = if v < 0 {
        i + 1
    } else {
        i
    };
    assert(text.len() == digits.len() + (a - i));
    assert forall|x: int| a <= x < j implies is_digit(#[trigger] s[x]) by {
        assert(s[x] == s.subrange(i, j)[x - i]);
        assert(text[x - i] == digits[x - a]);
    }
    assert(s[i] == s.subrange(i, j)[0]);
    if v < 0 {
        assert(s[i] == MINUS);
    } else {
        assert(is_digit(s[i]));
    }
    assert(s[a] == s.subrange(i, j)[a - i]);
    assert(text[a - i] == digits[0]);
    assert(is_digit(digits[0]));
    if magnitude == 0 {
        assert(digits.len() == 1);
        assert(j == a + 1);
    } else {
        lemma_digit_run(s, a + 1, j);
    }
    assert(fraction_end(s, j) == Some(j));
    assert(exponent_end(s, j) == Some(j));
}

/// A plain text between quotes is a value that ends after its closing quote.
pub proof fn lemma_quoted_value(s: Seq<u8>, i: int, text: Seq<u8>)
    requires
        0 <= i,
        i + text.len() + 2 <= s.len(),
        s.subrange(i, i + text.len() + 2) == quoted(text),
        plain(text),
    ensures
        value_end(s, i, MAX_DEPTH as nat) == Some(i + text.len() + 2),
{
    let j = i + text.len() + 1;
    let whole = s.subrange(i, j + 1);
    assert(s[i] == whole[0]);
    assert(s[j] == whole[j - i]);
    assert(s.subrange(i + 1, j) =~= text) by {
        assert forall|x: int| 0 <= x < text.len() implies s.subrange(i + 1, j)[x] == text[x] by {
            assert(s[i + 1 + x] == whole[x + 1]);
        }
    }
    lemma_plain_string(s, i + 1, j);
}

/// The scanner reads `pair_text` back as its two members, each where it was
/// written, provided both values are values that end where they were written.
pub proof fn lemma_pair_document(k1: Seq<u8>, v1: Seq<u8>, k2: Seq<u8>, v2: Seq<u8>)
    requires
        plain(k1),
        plain(k2),
        ({
            let s = pair_text(k1, v1, k2, v2);
            let m1 = first_span(k1, v1);
            let m2 = second_span(k1, v1, k2, v2);
            &&& value_end(s, m1.value_start, MAX_DEPTH as nat) == Some(m1.value_end)
            &&& value_end(s, m2.value_start, MAX_DEPTH as nat) == Some(m2.value_end)
        }),
    ensures
        ({
            let s = pair_text(k1, v1, k2, v2);
            let m1 = first_span(k1, v1);
            let m2 = second_span(k1, v1, k2, v2);
            &&& document(s) == Some(seq![m1, m2])
            &&& key_bytes(s, m1) == k1
            &&& value_bytes(s, m1) == v1
            &&& key_bytes(s, m2) == k2
            &&& value_bytes(s, m2) == v2
        }),
{
    let s = pair_text(k1, v1, k2, v2);
    lemma_pair_layout(k1, v1, k2, v2);
    lemma_laid_out_document(s, k1, v1, k2, v2);
}

/// Where each part of `pair_text` stands.
pub proof fn lemma_pair_layout(k1: Seq<u8>, v1: Seq<u8>, k2: Seq<u8>, v2: Seq<u8>)
    ensures
        laid_out(pair_text(k1, v1, k2, v2), k1, v1, k2, v2),
{
    reveal(pair_text);
    let s = pair_text(k1, v1, k2, v2);
    let a = k1.len() as int;
    let b = v1.len() as int;
    let c = k2.len() as int;
    let d = v2.len() as int;
    assert(s.subrange(2, 2 + a) =~= k1);
    assert(s.subrange(4 + a, 4 + a + b) =~= v1);
    assert(s.subrange(6 + a + b, 6 + a + b + c) =~= k2);
    assert(s.subrange(8 + a + b + c, 8 + a + b + c + d) =~= v2);
}

/// Whether `s` holds the four parts of a two-member object at the places
/// where `pair_text` puts them.
pub open spec fn laid_out(s: Seq<u8>, k1: Seq<u8>, v1: Seq<u8>, k2: Seq<u8>, v2: Seq<u8>) -> bool {
    let a = k1.len() as int;
    let b = v1.len() as int;
    let c = k2.len() as int;
    let d = v2.len() as int;
    &&& s.len() == 9 + a + b + c + d
    &&& s[0] == OPEN_BRACE
    &&& s[1] == QUOTE
    &&& s.subrange(2, 2 + a) == k1
    &&& s[2 + a] == QUOTE
    &&& s[3 + a] == COLON
    &&& s.subrange(4 + a, 4 + a + b) == v1
    &&& s[4 + a + b] == COMMA
    &&& s[5 + a + b] == QUOTE
    &&& s.subrange(6 + a + b, 6 + a + b + c) == k2
    &&& s[6 + a + b + c] == QUOTE
    &&& s[7 + a + b + c] == COLON
    &&& s.subrange(8 + a + b + c, 8 + a + b + c + d) == v2
    &&& s[8 + a + b + c + d] == CLOSE_BRACE
}

/// The scanner reads a text laid out as a two-member object back as those
/// two members.
pub proof fn lemma_laid_out_document(
    s: Seq<u8>,
    k1: Seq<u8>,
    v1: Seq<u8>,
    k2: Seq<u8>,
    v2: Seq<u8>,
)
    requires
        laid_out(s, k1, v1, k2, v2),
        plain(k1),
        plain(k2),
        value_end(s, first_span(k1, v1).value_start, MAX_DEPTH as nat) == Some(
            first_span(k1, v1).value_end,
        ),
        value_end(s, second_span(k1, v1, k2, v2).value_start, MAX_DEPTH as nat) == Some(
            second_span(k1, v1, k2, v2).value_end,
        ),
    ensures
        document(s) == Some(seq![first_span(k1, v1), second_span(k1, v1, k2, v2)]),
{
    let m1 = first_span(k1, v1);
    let m2 = second_span(k1, v1, k2, v2);
    let a = k1.len() as int;
    let b = v1.len() as int;
    let c = k2.len() as int;
    let d = v2.len() as int;
    let depth = MAX_DEPTH as nat;
    lemma_plain_string(s, 2, 2 + a);
    lemma_plain_string(s, 6 + a + b, 6 + a + b + c);
    lemma_value_start(s, 4 + a, depth);
    lemma_value_start(s, 8 + a + b + c, depth);
    crate::json::lemma_value_end_bounds(s, 4 + a, depth);
    lemma_member_last(s, 5 + a + b, 7 + a + b + c, 8 + a + b + c + d, depth);
    assert(members_from(s, 5 + a + b, depth) == Some((seq![m2], 9 + a + b + c + d)));
    lemma_member_more(s, 1, 3 + a, 4 + a + b, depth);
    assert(seq![m1] + seq![m2] =~= seq![m1, m2]);
    assert(members_from(s, 1, depth) == Some((seq![m1, m2], 9 + a + b + c + d)));
    assert(after_space(s, 1) == 1);
    assert(object_from(s, 1, depth) == members_from(s, 1, depth));
    assert(after_space(s, 0) == 0);
    assert(after_space(s, 9 + a + b + c + d) == 9 + a + b + c + d);
}

/// A member written without white space and followed by the closing brace
/// is the last member of its object.
pub proof fn lemma_member_last(s: Seq<u8>, i: int, colon: int, e: int, depth: nat)
    requires
        0 <= i < s.len(),
        s[i] == QUOTE,
        string_end(s, i + 1) == Some(colon),
        0 <= colon < s.len(),
        s[colon] == COLON,
        value_end(s, colon + 1, depth) == Some(e),
        0 <= e < s.len(),
        s[e] == CLOSE_BRACE,
    ensures
        members_from(s, i, depth) == Some(
            (
                seq![
                    MemberSpan {
                        key_start: i + 1,
                        key_end: colon - 1,
                        value_start: colon + 1,
                        value_end: e,
                    },
                ],
                e + 1,
            ),
        ),
{
    crate::json::lemma_string_end_bounds(s, i + 1);
    lemma_value_start(s, colon + 1, depth);
    assert(after_space(s, colon) == colon);
    assert(after_space(s, e) == e);
}

/// A member written without white space and followed by a comma and the
/// next member's opening quote comes before the members that follow.
pub proof fn lemma_member_more(s: Seq<u8>, i: int, colon: int, e: int, depth: nat)
    requires
        0 <= i < s.len(),
        s[i] == QUOTE,
        string_end(s, i + 1) == Some(colon),
        0 <= colon < s.len(),
        s[colon] == COLON,
        value_end(s, colon + 1, depth) == Some(e),
        colon + 1 < e,
        0 <= e < s.len() - 1,
        s[e] == COMMA,
        s[e + 1] == QUOTE,
        members_from(s, e + 1, depth) is Some,
    ensures
        match members_from(s, e + 1, depth) {
            Some((rest, end)) => members_from(s, i, depth) == Some(
                (
                    seq![
                        MemberSpan {
                            key_start: i + 1,
                            key_end: colon - 1,
                            value_start: colon + 1,
                            value_end: e,
                        },
                    ] + rest,
                    end,
                ),
            ),
            None => true,
        },
{
    crate::json::lemma_string_end_bounds(s, i + 1);
    lemma_value_start(s, colon + 1, depth);
    assert(after_space(s, colon) == colon);
    assert(after_space(s, e) == e);
    assert(after_space(s, e + 1) == e + 1);
}

/// A value starts at no white space.
pub proof fn lemma_value_start(s: Seq<u8>, i: int, depth: nat)
    requires
        value_end(s, i, depth) is Some,
    ensures
        0 <= i < s.len(),
        !is_space(s[i]),
        after_space(s, i) == i,
{
}

/// In a list of two members with different names, each name finds its own member.
pub proof fn lemma_pair_fields(s: Seq<u8>, m1: MemberSpan, m2: MemberSpan)
    requires
        key_bytes(s, m1) != key_bytes(s, m2),
    ensures
        field(s, seq![m1, m2], key_bytes(s, m1)) == Some(m1),
        field(s, seq![m1, m2], key_bytes(s, m2)) == Some(m2),
{
    let both = seq![m1, m2];
    let one = seq![m1];
    assert(both.drop_last() =~= one);
    assert(one.drop_last() =~= Seq::<MemberSpan>::empty());
    let n1 = key_bytes(s, m1);
    let n2 = key_bytes(s, m2);
    let none = Seq::<MemberSpan>::empty();
    assert(named_count(s, none, n1) == 0);
    assert(named_count(s, none, n2) == 0);
    assert(one.last() == m1);
    assert(both.last() == m2);
    assert(named_count(s, one, n1) == 1);
    assert(named_count(s, one, n2) == 0);
    assert(named_count(s, both, n1) == 1);
    assert(named_count(s, both, n2) == 1);
    assert(named_last(s, one, n1) == Some(m1));
    assert(named_last(s, both, n1) == Some(m1));
    assert(named_last(s, both, n2) == Some(m2));
}

/// The scanner reads an object of two plain strings back as its two
/// members, and each name finds its own value.
pub proof fn lemma_pair_of_strings(k1: Seq<u8>, t1: Seq<u8>, k2: Seq<u8>, t2: Seq<u8>)
    requires
        plain(k1),
        plain(t1),
        plain(k2),
        plain(t2),
        k1 != k2,
    ensures
        ({
            let s = pair_text(k1, quoted(t1), k2, quoted(t2));
            let m1 = first_span(k1, quoted(t1));
            let m2 = second_span(k1, quoted(t1), k2, quoted(t2));
            &&& document(s) == Some(seq![m1, m2])
            &&& field(s, seq![m1, m2], k1) == Some(m1)
            &&& field(s, seq![m1, m2], k2) == Some(m2)
            &&& value_bytes(s, m1) == quoted(t1)
            &&& value_bytes(s, m2) == quoted(t2)
        }),
{
    let v1 = quoted(t1);
    let v2 = quoted(t2);
    let s = pair_text(k1, v1, k2, v2);
    let m1 = first_span(k1, v1);
    let m2 = second_span(k1, v1, k2, v2);
    lemma_pair_layout(k1, v1, k2, v2);
    assert(value_end(s, m1.value_start, MAX_DEPTH as nat) == Some(m1.value_end)) by {
        lemma_quoted_value(s, m1.value_start, t1);
    }
    assert(value_end(s, m2.value_start, MAX_DEPTH as nat) == Some(m2.value_end)) by {
        lemma_quoted_value(s, m2.value_start, t2);
    }
    lemma_pair_document(k1, v1, k2, v2);
    lemma_pair_fields(s, m1, m2);
}

/// The scanner reads an object of a plain string and an integer back as
/// its two members, and each name finds its own value.
pub proof fn lemma_pair_of_string_and_int(k1: Seq<u8>, t1: Seq<u8>, k2: Seq<u8>, v: int)
    requires
        plain(k1),
        plain(t1),
        plain(k2),
        k1 != k2,
    ensures
        ({
            let s = pair_text(k1, quoted(t1), k2, int_text(v));
            let m1 = first_span(k1, quoted(t1));
            let m2 = second_span(k1, quoted(t1), k2, int_text(v));
            &&& document(s) == Some(seq![m1, m2])
            &&& field(s, seq![m1, m2], k1) == Some(m1)
            &&& field(s, seq![m1, m2], k2) == Some(m2)
            &&& value_bytes(s, m1) == quoted(t1)
            &&& value_bytes(s, m2) == int_text(v)
        }),
{
    let v1 = quoted(t1);
    let v2 = int_text(v);
    let s = pair_text(k1, v1, k2, v2);
    let m1 = first_span(k1, v1);
    let m2 = second_span(k1, v1, k2, v2);
    lemma_pair_layout(k1, v1, k2, v2);
    assert(value_end(s, m1.value_start, MAX_DEPTH as nat) == Some(m1.value_end)) by {
        lemma_quoted_value(s, m1.value_start, t1);
    }
    assert(value_end(s, m2.value_start, MAX_DEPTH as nat) == Some(m2.value_end)) by {
        lemma_int_number(s, m2.value_start, v);
    }
    lemma_pair_document(k1, v1, k2, v2);
    lemma_pair_fields(s, m1, m2);
}

} // verus!

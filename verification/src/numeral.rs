//! Numbers as text: fixed-width hexadecimal and canonical decimal.

use vstd::prelude::*;

verus! {

/// The lower-case hexadecimal digit of `v`.
pub open spec fn hex_char(v: int) -> u8 {
    if 0 <= v < 10 {
        (48 + v) as u8
    } else {
        (87 + v) as u8
    }
}

/// The value of a hexadecimal digit of either case.
pub open spec fn hex_value(c: u8) -> Option<int> {
    if 48 <= c <= 57 {
        Some(c - 48)
    } else if 97 <= c <= 102 {
        Some(c - 87)
    } else if 65 <= c <= 70 {
        Some(c - 55)
    } else {
        None
    }
}

/// Sixteen to the power `n`.
pub open spec fn pow16(n: nat) -> nat
    decreases n,
{
    if n == 0 {
        1
    } else {
        16 * pow16((n - 1) as nat)
    }
}

/// The last `width` hexadecimal digits of `v`, most significant first.
pub open spec fn hex_text(v: nat, width: nat) -> Seq<u8>
    decreases width,
{
    if width == 0 {
        Seq::empty()
    } else {
        hex_text(v / 16, (width - 1) as nat).push(hex_char((v % 16) as int))
    }
}

/// The number that a run of hexadecimal digits spells.
pub open spec fn hex_number(text: Seq<u8>) -> Option<nat>
    decreases text.len(),
{
    if text.len() == 0 {
        Some(0)
    } else {
        match (hex_number(text.drop_last()), hex_value(text.last())) {
            (Some(high), Some(digit)) => Some((high * 16 + digit) as nat),
            _ => None,
        }
    }
}

/// Whether `c` is a decimal digit.
pub open spec fn is_digit(c: u8) -> bool {
    48 <= c <= 57
}

/// The decimal digits of `v`, without leading zeros.
pub open spec fn dec_text(v: nat) -> Seq<u8>
    decreases v,
{
    if v < 10 {
        seq![(48 + v) as u8]
    } else {
        dec_text(v / 10).push((48 + v % 10) as u8)
    }
}

/// An integer as text: a minus sign where it is negative, then its digits.
pub open spec fn int_text(v: int) -> Seq<u8> {
    if v < 0 {
        seq![45u8] + dec_text((-v) as nat)
    } else {
        dec_text(v as nat)
    }
}

/// The number that a non-empty run of decimal digits spells.
pub open spec fn digits_value(text: Seq<u8>) -> Option<nat>
    decreases text.len(),
{
    if text.len() == 0 {
        None
    } else if text.len() == 1 {
        if is_digit(text[0]) {
            Some((text[0] - 48) as nat)
        } else {
            None
        }
    } else {
        match digits_value(text.drop_last()) {
            Some(high) => if is_digit(text.last()) {
                Some((high * 10 + (text.last() - 48)) as nat)
            } else {
                None
            },
            None => None,
        }
    }
}

/// The number that canonical decimal text spells: digits only, and no
/// leading zero before another digit.
pub open spec fn dec_number(text: Seq<u8>) -> Option<nat> {
    if text.len() > 1 && text[0] == 48 {
        None
    } else {
        digits_value(text)
    }
}

/// The integer that canonical text spells, with an optional minus sign.
pub open spec fn int_value(text: Seq<u8>) -> Option<int> {
    if text.len() > 0 && text[0] == 45 {
        match dec_number(text.skip(1)) {
            Some(magnitude) => Some(-(magnitude as int)),
            None => None,
        }
    } else {
        match dec_number(text) {
            Some(magnitude) => Some(magnitude as int),
            None => None,
        }
    }
}

/// The integer that canonical text spells, where it fits 64 signed bits.
pub open spec fn i64_value(text: Seq<u8>) -> Option<i64> {
    match int_value(text) {
        Some(v) => if i64::MIN <= v <= i64::MAX {
            Some(v as i64)
        } else {
            None
        },
        None => None,
    }
}

/// Hexadecimal text has the asked width and holds lower-case digits only.
pub proof fn lemma_hex_text_shape(v: nat, width: nat)
    ensures
        hex_text(v, width).len() == width,
        forall|i: int|
            0 <= i < width ==> {
                let c = #[trigger] hex_text(v, width)[i];
                48 <= c <= 57 || 97 <= c <= 102
            },
    decreases width,
{
    if width > 0 {
        lemma_hex_text_shape(v / 16, (width - 1) as nat);
    }
}

/// Reading hexadecimal text gives back the number it was written from.
pub proof fn lemma_hex_roundtrip(v: nat, width: nat)
    requires
        v < pow16(width),
    ensures
        hex_number(hex_text(v, width)) == Some(v),
    decreases width,
{
    if width > 0 {
        let shorter: Seq<u8> = hex_text(v / 16, (width - 1) as nat);
        lemma_hex_roundtrip(v / 16, (width - 1) as nat);
        let text: Seq<u8> = hex_text(v, width);
        assert(text.drop_last() =~= shorter);
        assert(text.last() == hex_char((v % 16) as int));
    }
}

/// A run of `n` hexadecimal digits spells a number below sixteen to the `n`.
pub proof fn lemma_hex_number_bound(text: Seq<u8>)
    requires
        hex_number(text) is Some,
    ensures
        hex_number(text)->0 < pow16(text.len()),
    decreases text.len(),
{
    if text.len() > 0 {
        lemma_hex_number_bound(text.drop_last());
    }
}

/// Decimal text is a non-empty run of digits that starts with a zero only
/// where the number is zero.
pub proof fn lemma_dec_text_shape(v: nat)
    ensures
        dec_text(v).len() >= 1,
        forall|i: int| 0 <= i < dec_text(v).len() ==> is_digit(#[trigger] dec_text(v)[i]),
        dec_text(v)[0] == 48 <==> v == 0,
        v < 10 ==> dec_text(v).len() == 1,
    decreases v,
{
    if v >= 10 {
        lemma_dec_text_shape(v / 10);
    }
}

/// Reading decimal text gives back the number it was written from.
pub proof fn lemma_dec_roundtrip(v: nat)
    ensures
        dec_number(dec_text(v)) == Some(v),
        digits_value(dec_text(v)) == Some(v),
    decreases v,
{
    lemma_dec_text_shape(v);
    if v >= 10 {
        lemma_dec_roundtrip(v / 10);
        lemma_dec_text_shape(v / 10);
        let text: Seq<u8> = dec_text(v);
        assert(text.drop_last() =~= dec_text(v / 10));
        assert(text.last() == (48 + v % 10) as u8);
        assert(text.len() >= 2);
    }
}

/// Reading the text of an integer gives the integer back.
pub proof fn lemma_int_roundtrip(v: int)
    ensures
        int_value(int_text(v)) == Some(v),
{
    if v < 0 {
        let magnitude: nat = (-v) as nat;
        lemma_dec_roundtrip(magnitude);
        assert(int_text(v).skip(1) =~= dec_text(magnitude));
    } else {
        lemma_dec_roundtrip(v as nat);
        lemma_dec_text_shape(v as nat);
    }
}

/// Every non-empty front part of a run of digits is a run of digits too, and
/// spells no more than the whole.
pub proof fn lemma_digits_prefix(text: Seq<u8>, k: int)
    requires
        1 <= k <= text.len(),
    ensures
        digits_value(text.take(k)) is None ==> digits_value(text) is None,
        digits_value(text) is Some ==> digits_value(text.take(k))->0 <= digits_value(text)->0,
    decreases text.len() - k,
{
    if k == text.len() {
        assert(text.take(k) =~= text);
    } else {
        assert(text.drop_last().take(k) =~= text.take(k));
        lemma_digits_prefix(text.drop_last(), k);
    }
}

fn hex_digit(v: u8) -> (c: u8)
    requires
        v < 16,
    ensures
        c == hex_char(v as int),
{
    if v < 10 {
        48 + v
    } else {
        87 + v
    }
}

fn hex_digit_value(c: u8) -> (r: Option<u8>)
    ensures
        match r {
            Some(v) => v < 16 && hex_value(c) == Some(v as int),
            None => hex_value(c) is None,
        },
{
    if 48 <= c && c <= 57 {
        Some(c - 48)
    } else if 97 <= c && c <= 102 {
        Some(c - 87)
    } else if 65 <= c && c <= 70 {
        Some(c - 55)
    } else {
        None
    }
}

/// Appends the last `width` hexadecimal digits of `v` to `out`.
pub fn push_hex(v: u64, width: usize, out: &mut Vec<u8>)
    ensures
        final(out)@ == old(out)@ + hex_text(v as nat, width as nat),
    decreases width,
{
    if width > 0 {
        push_hex(v / 16, width - 1, out);
        let ghost before: Seq<u8> = out@;
        out.push(hex_digit((v % 16) as u8));
        assert(out@ =~= old(out)@ + hex_text(v as nat, width as nat));
    } else {
        assert(out@ =~= old(out)@ + hex_text(v as nat, width as nat));
    }
}

/// Reads the hexadecimal digits `text[from..to]`, at most sixteen of them.
pub fn read_hex(text: &[u8], from: usize, to: usize) -> (r: Option<u64>)
    requires
        from <= to <= text@.len(),
        to - from <= 16,
    ensures
        match r {
            Some(v) => hex_number(text@.subrange(from as int, to as int)) == Some(v as nat),
            None => hex_number(text@.subrange(from as int, to as int)) is None,
        },
{
    let ghost run: Seq<u8> = text@.subrange(from as int, to as int);
    let mut acc: u64 = 0;
    let mut i: usize = from;
    assert(run.take(0) =~= Seq::<u8>::empty());
    while i < to
        invariant
            from <= i <= to,
            to <= text@.len(),
            to - from <= 16,
            run == text@.subrange(from as int, to as int),
            hex_number(run.take(i - from)) == Some(acc as nat),
        decreases to - i,
    {
        let ghost front: Seq<u8> = run.take(i - from);
        let ghost next: Seq<u8> = run.take(i - from + 1);
        proof {
            assert(next.drop_last() =~= front);
            assert(next.last() == text@[i as int]);
            lemma_hex_number_bound(front);
            lemma_pow16_grows((i - from) as nat, 15);
            lemma_pow16_values();
        }
        match hex_digit_value(text[i]) {
            Some(d) => {
                acc = acc * 16 + d as u64;
            },
            None => {
                proof {
                    lemma_hex_prefix(run, i - from + 1);
                }
                return None;
            },
        }
        i = i + 1;
    }
    assert(run.take(to - from) =~= run);
    Some(acc)
}

/// Sixteen to the fifteenth and sixteenth powers, as numbers.
pub proof fn lemma_pow16_values()
    ensures
        pow16(15) == 0x1000_0000_0000_0000,
        pow16(16) == 0x1_0000_0000_0000_0000,
        pow16(12) == 0x1_0000_0000_0000,
        pow16(8) == 0x1_0000_0000,
        pow16(4) == 0x1_0000,
{
    reveal_with_fuel(pow16, 17);
}

/// The powers of sixteen grow with the exponent.
pub proof fn lemma_pow16_grows(a: nat, b: nat)
    requires
        a <= b,
    ensures
        pow16(a) <= pow16(b),
    decreases b,
{
    if a < b {
        lemma_pow16_grows(a, (b - 1) as nat);
    }
}

/// Text with a front part that is no run of hexadecimal digits is none either.
pub proof fn lemma_hex_prefix(text: Seq<u8>, k: int)
    requires
        0 <= k <= text.len(),
        hex_number(text.take(k)) is None,
    ensures
        hex_number(text) is None,
    decreases text.len() - k,
{
    if k == text.len() {
        assert(text.take(k) =~= text);
    } else {
        assert(text.drop_last().take(k) =~= text.take(k));
        lemma_hex_prefix(text.drop_last(), k);
    }
}

fn push_dec(v: u64, out: &mut Vec<u8>)
    ensures
        final(out)@ == old(out)@ + dec_text(v as nat),
    decreases v,
{
    if v < 10 {
        out.push(48 + v as u8);
        assert(out@ =~= old(out)@ + dec_text(v as nat));
    } else {
        push_dec(v / 10, out);
        out.push(48 + (v % 10) as u8);
        assert(out@ =~= old(out)@ + dec_text(v as nat));
    }
}

/// Appends the canonical text of `v` to `out`.
pub fn push_int(v: i64, out: &mut Vec<u8>)
    ensures
        final(out)@ == old(out)@ + int_text(v as int),
{
    if v < 0 {
        out.push(45);
        let magnitude: u64 = if v == i64::MIN {
            0x8000_0000_0000_0000
        } else {
            (-v) as u64
        };
        push_dec(magnitude, out);
        assert(out@ =~= old(out)@ + int_text(v as int));
    } else {
        push_dec(v as u64, out);
    }
}

fn read_digits(text: &[u8], from: usize, to: usize) -> (r: Option<u64>)
    requires
        from <= to <= text@.len(),
    ensures
        match r {
            Some(v) => digits_value(text@.subrange(from as int, to as int)) == Some(v as nat),
            None => match digits_value(text@.subrange(from as int, to as int)) {
                Some(v) => v > u64::MAX,
                None => true,
            },
        },
{
    let ghost run: Seq<u8> = text@.subrange(from as int, to as int);
    if from == to {
        return None;
    }
    let first: u8 = text[from];
    if !(48 <= first && first <= 57) {
        proof {
            lemma_digits_prefix(run, 1);
        }
        return None;
    }
    let mut acc: u64 = (first - 48) as u64;
    let mut i: usize = from + 1;
    while i < to
        invariant
            from < i <= to,
            to <= text@.len(),
            run == text@.subrange(from as int, to as int),
            digits_value(run.take(i - from)) == Some(acc as nat),
        decreases to - i,
    {
        let ghost front: Seq<u8> = run.take(i - from);
        let ghost next: Seq<u8> = run.take(i - from + 1);
        proof {
            assert(next.drop_last() =~= front);
            assert(next.last() == text@[i as int]);
            lemma_digits_prefix(run, i - from + 1);
        }
        let c: u8 = text[i];
        if !(48 <= c && c <= 57) {
            return None;
        }
        let d: u64 = (c - 48) as u64;
        if acc > (u64::MAX - d) / 10 {
            return None;
        }
        acc = acc * 10 + d;
        i = i + 1;
    }
    assert(run.take(to - from) =~= run);
    Some(acc)
}

/// Reads the canonical integer `text[from..to]` where it fits 64 signed bits.
pub fn read_i64(text: &[u8], from: usize, to: usize) -> (r: Option<i64>)
    requires
        from <= to <= text@.len(),
    ensures
        r == i64_value(text@.subrange(from as int, to as int)),
{
    let ghost run: Seq<u8> = text@.subrange(from as int, to as int);
    if from == to {
        return None;
    }
    let negative: bool = text[from] == 45;
    let start: usize = if negative {
        from + 1
    } else {
        from
    };
    assert(text@.subrange(start as int, to as int) =~= if negative {
        run.skip(1)
    } else {
        run
    });
    if to - start > 1 && text[start] == 48 {
        return None;
    }
    match read_digits(text, start, to) {
        None => None,
        Some(magnitude) => {
            if negative {
                if magnitude > 0x8000_0000_0000_0000 {
                    None
                } else if magnitude == 0x8000_0000_0000_0000 {
                    Some(i64::MIN)
                } else {
                    Some(-(magnitude as i64))
                }
            } else {
                if magnitude > 0x7fff_ffff_ffff_ffff {
                    None
                } else {
                    Some(magnitude as i64)
                }
            }
        },
    }
}

/// The character of a decimal digit.
pub open spec fn digit_char(d: int) -> char {
    (48 + d) as char
}

/// The decimal digits of `v` as characters, without leading zeros.
pub open spec fn dec_chars(v: nat) -> Seq<char>
    decreases v,
{
    if v < 10 {
        seq![digit_char(v as int)]
    } else {
        dec_chars(v / 10).push(digit_char((v % 10) as int))
    }
}

/// An integer as characters: a minus sign where it is negative, then its digits.
pub open spec fn int_chars(v: int) -> Seq<char> {
    if v < 0 {
        seq!['-'] + dec_chars((-v) as nat)
    } else {
        dec_chars(v as nat)
    }
}

fn digit_str(d: u32) -> (s: &'static str)
    requires
        d < 10,
    ensures
        s@ == seq![digit_char(d as int)],
{
    proof {
        reveal_strlit("0");
        reveal_strlit("1");
        reveal_strlit("2");
        reveal_strlit("3");
        reveal_strlit("4");
        reveal_strlit("5");
        reveal_strlit("6");
        reveal_strlit("7");
        reveal_strlit("8");
        reveal_strlit("9");
    }
    let s: &'static str = if d == 0 {
        "0"
    } else if d == 1 {
        "1"
    } else if d == 2 {
        "2"
    } else if d == 3 {
        "3"
    } else if d == 4 {
        "4"
    } else if d == 5 {
        "5"
    } else if d == 6 {
        "6"
    } else if d == 7 {
        "7"
    } else if d == 8 {
        "8"
    } else {
        "9"
    };
    assert(s@ =~= seq![digit_char(d as int)]);
    s
}

fn append_dec(v: u32, out: &mut String)
    ensures
        final(out)@ == old(out)@ + dec_chars(v as nat),
    decreases v,
{
    if v < 10 {
        out.append(digit_str(v));
    } else {
        append_dec(v / 10, out);
        out.append(digit_str(v % 10));
        assert(out@ =~= old(out)@ + dec_chars(v as nat));
    }
}

/// Appends the decimal text of `v` to `out`.
pub fn append_int(v: i32, out: &mut String)
    ensures
        final(out)@ == old(out)@ + int_chars(v as int),
{
    if v < 0 {
        proof {
            reveal_strlit("-");
        }
        out.append("-");
        let magnitude: u32 = if v == i32::MIN {
            0x8000_0000
        } else {
            (-v) as u32
        };
        append_dec(magnitude, out);
        assert(out@ =~= old(out)@ + int_chars(v as int));
    } else {
        append_dec(v as u32, out);
    }
}

} // verus!

use management_company_backend::numeral::{push_hex, push_int, read_hex, read_i64};
use management_company_backend::principal::{push_uuid, read_uuid, Principal};

fn int_text(v: i64) -> Vec<u8> {
    let mut out = Vec::new();
    push_int(v, &mut out);
    out
}

fn parse_i64(text: &[u8]) -> Option<i64> {
    read_i64(text, 0, text.len())
}

#[test]
fn writes_hexadecimal_of_fixed_width() {
    let mut out = Vec::new();
    push_hex(0xbeef, 8, &mut out);
    assert_eq!(out, b"0000beef".to_vec());
    push_hex(0x1_2345, 4, &mut out);
    assert_eq!(out, b"0000beef2345".to_vec());
    push_hex(7, 0, &mut out);
    assert_eq!(out, b"0000beef2345".to_vec());
}

#[test]
fn reads_hexadecimal_of_either_case() {
    assert_eq!(read_hex(b"xxBeEf09", 2, 8), Some(0xbeef09));
    assert_eq!(read_hex(b"ffffffffffffffff", 0, 16), Some(u64::MAX));
    assert_eq!(read_hex(b"", 0, 0), Some(0));
    assert_eq!(read_hex(b"12g4", 0, 4), None);
    assert_eq!(read_hex(b"12-4", 0, 4), None);
}

#[test]
fn writes_integers_in_canonical_decimal() {
    assert_eq!(int_text(0), b"0".to_vec());
    assert_eq!(int_text(7), b"7".to_vec());
    assert_eq!(int_text(1_700_086_400), b"1700086400".to_vec());
    assert_eq!(int_text(-5), b"-5".to_vec());
    assert_eq!(int_text(i64::MAX), b"9223372036854775807".to_vec());
    assert_eq!(int_text(i64::MIN), b"-9223372036854775808".to_vec());
}

#[test]
fn reads_integers_of_64_signed_bits() {
    assert_eq!(parse_i64(b"0"), Some(0));
    assert_eq!(parse_i64(b"-0"), Some(0));
    assert_eq!(parse_i64(b"1700086400"), Some(1_700_086_400));
    assert_eq!(parse_i64(b"-5"), Some(-5));
    assert_eq!(parse_i64(b"9223372036854775807"), Some(i64::MAX));
    assert_eq!(parse_i64(b"-9223372036854775808"), Some(i64::MIN));
    assert_eq!(read_i64(b"exp:42}", 4, 6), Some(42));
}

#[test]
fn refuses_integers_out_of_range_or_not_canonical() {
    assert_eq!(parse_i64(b"9223372036854775808"), None);
    assert_eq!(parse_i64(b"-9223372036854775809"), None);
    assert_eq!(parse_i64(b"18446744073709551616"), None);
    assert_eq!(parse_i64(b"99999999999999999999999999"), None);
    assert_eq!(parse_i64(b""), None);
    assert_eq!(parse_i64(b"-"), None);
    assert_eq!(parse_i64(b"01"), None);
    assert_eq!(parse_i64(b"-01"), None);
    assert_eq!(parse_i64(b"+1"), None);
    assert_eq!(parse_i64(b"1.0"), None);
    assert_eq!(parse_i64(b"1e3"), None);
    assert_eq!(parse_i64(b"12a"), None);
    assert_eq!(parse_i64(b" 12"), None);
}

#[test]
fn reading_undoes_writing_of_integers() {
    for v in [0i64, 1, -1, 9, 10, 99, 100, -100, 1_516_239_022, i64::MAX, i64::MIN, i64::MIN + 1] {
        assert_eq!(parse_i64(&int_text(v)), Some(v));
    }
}

#[test]
fn writes_an_identifier_in_five_groups() {
    let principal = Principal { user_id: 0x67e55044_10b1_426f_9247_bb680e5fe0c8 };
    assert_eq!(principal.to_text(), b"67e55044-10b1-426f-9247-bb680e5fe0c8".to_vec());
    let mut out = b"id=".to_vec();
    push_uuid(0, &mut out);
    assert_eq!(out, b"id=00000000-0000-0000-0000-000000000000".to_vec());
    assert_eq!(
        Principal { user_id: u128::MAX }.to_text(),
        b"ffffffff-ffff-ffff-ffff-ffffffffffff".to_vec()
    );
}

#[test]
fn identifier_text_agrees_with_the_uuid_crate() {
    for id in [0u128, 1, 0x67e55044_10b1_426f_9247_bb680e5fe0c8, u128::MAX, 1 << 96, (1 << 48) - 1] {
        let text = String::from_utf8(Principal { user_id: id }.to_text()).unwrap();
        assert_eq!(text, uuid::Uuid::from_u128(id).to_string());
        assert_eq!(uuid::Uuid::parse_str(&text).unwrap().as_u128(), id);
    }
}

#[test]
fn reads_an_identifier_of_either_case() {
    assert_eq!(
        Principal::from_text(b"67e55044-10b1-426f-9247-bb680e5fe0c8"),
        Some(Principal { user_id: 0x67e55044_10b1_426f_9247_bb680e5fe0c8 })
    );
    assert_eq!(
        Principal::from_text(b"67E55044-10B1-426F-9247-BB680E5FE0C8"),
        Some(Principal { user_id: 0x67e55044_10b1_426f_9247_bb680e5fe0c8 })
    );
    assert_eq!(read_uuid(b"\"00000000-0000-0000-0000-00000000002a\"", 1, 37), Some(42));
}

#[test]
fn refuses_text_that_is_no_identifier() {
    assert_eq!(Principal::from_text(b""), None);
    assert_eq!(Principal::from_text(b"67e5504410b1426f9247bb680e5fe0c8"), None);
    assert_eq!(Principal::from_text(b"67e55044-10b1-426f-9247-bb680e5fe0c"), None);
    assert_eq!(Principal::from_text(b"67e55044-10b1-426f-9247-bb680e5fe0c8a"), None);
    assert_eq!(Principal::from_text(b"67e55044-10b1-426f-9247_bb680e5fe0c8"), None);
    assert_eq!(Principal::from_text(b"67e55044-10b1-426f-9247-bb680e5fe0cg"), None);
    assert_eq!(Principal::from_text(b"67e5504-410b1-426f-9247-bb680e5fe0c8"), None);
    assert_eq!(Principal::from_text(b"{7e55044-10b1-426f-9247-bb680e5fe0c}"), None);
}

#[test]
fn reading_undoes_writing_of_identifiers() {
    for id in [0u128, 1, 0xdead_beef, u128::MAX, u128::MAX - 1, 1 << 127, 0x0123_4567_89ab_cdef_0123_4567_89ab_cdef] {
        let text = Principal { user_id: id }.to_text();
        assert_eq!(Principal::from_text(&text), Some(Principal { user_id: id }));
    }
}

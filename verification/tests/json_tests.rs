use management_company_backend::claims::{accepts_header, header_bytes, Claims};
use management_company_backend::json::{bytes_equal, find_field, parse_object, Member};

fn value_of<'a>(text: &'a [u8], name: &[u8]) -> Option<&'a [u8]> {
    let members = parse_object(text)?;
    let member = find_field(text, &members, name)?;
    Some(&text[member.value_start..member.value_end])
}

fn names(text: &[u8]) -> Option<Vec<Vec<u8>>> {
    let members: Vec<Member> = parse_object(text)?;
    Some(members.iter().map(|m| text[m.key_start..m.key_end].to_vec()).collect())
}

#[test]
fn scans_the_members_of_an_object() {
    let text = b"{\"sub\":\"abc\",\"exp\":12}";
    let members = parse_object(text).unwrap();
    assert_eq!(members.len(), 2);
    assert_eq!((members[0].key_start, members[0].key_end), (2, 5));
    assert_eq!((members[0].value_start, members[0].value_end), (7, 12));
    assert_eq!((members[1].key_start, members[1].key_end), (14, 17));
    assert_eq!((members[1].value_start, members[1].value_end), (19, 21));
}

#[test]
fn scans_an_empty_object() {
    assert_eq!(names(b"{}"), Some(vec![]));
    assert_eq!(names(b" \t\r\n{ \n } "), Some(vec![]));
}

#[test]
fn passes_over_white_space_and_values_of_every_kind() {
    let text = b" { \"a\" : [1, -2.5e+3, \"x\\\"y\", {\"b\": [ ]}, true, false, null] ,\n\"c\":{\"d\":{}}, \"e\":\"\\u00e9\\n\" } ";
    assert_eq!(names(text), Some(vec![b"a".to_vec(), b"c".to_vec(), b"e".to_vec()]));
    assert_eq!(value_of(text, b"c"), Some(&b"{\"d\":{}}"[..]));
    assert_eq!(value_of(text, b"e"), Some(&b"\"\\u00e9\\n\""[..]));
}

#[test]
fn refuses_text_that_is_not_one_object() {
    for text in [
        &b""[..],
        b"[]",
        b"12",
        b"\"a\"",
        b"null",
        b"{",
        b"}",
        b"{}{}",
        b"{} x",
        b"{\"a\":1,}",
        b"{,\"a\":1}",
        b"{\"a\":1 \"b\":2}",
        b"{\"a\" 1}",
        b"{a:1}",
        b"{'a':1}",
        b"{\"a\":}",
        b"{\"a\":01}",
        b"{\"a\":1.}",
        b"{\"a\":.5}",
        b"{\"a\":1e}",
        b"{\"a\":+1}",
        b"{\"a\":tru}",
        b"{\"a\":nul}",
        b"{\"a\":\"x}",
        b"{\"a\":\"\\x\"}",
        b"{\"a\":\"\\u12g4\"}",
        b"{\"a\":\"line\nbreak\"}",
        b"{\"a\":[1,]}",
        b"{\"a\":[1 2]}",
        b"{\"a\":[}",
    ] {
        assert!(parse_object(text).is_none(), "{:?}", String::from_utf8_lossy(text));
    }
}

#[test]
fn limits_how_deep_values_nest() {
    let mut shallow = b"{\"a\":".to_vec();
    shallow.extend(std::iter::repeat(b'[').take(64));
    shallow.extend(std::iter::repeat(b']').take(64));
    shallow.push(b'}');
    assert!(parse_object(&shallow).is_some());

    let mut deep = b"{\"a\":".to_vec();
    deep.extend(std::iter::repeat(b'[').take(65));
    deep.extend(std::iter::repeat(b']').take(65));
    deep.push(b'}');
    assert!(parse_object(&deep).is_none());

    let mut endless = b"{\"a\":".to_vec();
    endless.extend(std::iter::repeat(b'[').take(100_000));
    assert!(parse_object(&endless).is_none());
}

#[test]
fn finds_a_member_only_where_its_name_occurs_once() {
    let text = b"{\"a\":1,\"b\":2,\"a\":3}";
    assert_eq!(value_of(text, b"b"), Some(&b"2"[..]));
    assert_eq!(value_of(text, b"a"), None);
    assert_eq!(value_of(text, b"c"), None);
    assert_eq!(value_of(text, b""), None);
}

#[test]
fn compares_names_as_written() {
    let text = b"{\"s\\u0075b\":1,\"Sub\":2,\"sub \":3}";
    assert_eq!(value_of(text, b"sub"), None);
    assert_eq!(value_of(text, b"Sub"), Some(&b"2"[..]));
}

#[test]
fn bytes_equal_compares_a_range_with_a_name() {
    assert!(bytes_equal(b"{\"exp\":1}", 2, 5, b"exp"));
    assert!(!bytes_equal(b"{\"exp\":1}", 2, 5, b"exq"));
    assert!(!bytes_equal(b"{\"exp\":1}", 2, 5, b"ex"));
    assert!(bytes_equal(b"abc", 1, 1, b""));
}

#[test]
fn writes_claims_as_a_flat_object() {
    let claims = Claims { subject: 0x67e55044_10b1_426f_9247_bb680e5fe0c8, expiry: 1_700_086_400 };
    assert_eq!(
        claims.to_bytes(),
        b"{\"sub\":\"67e55044-10b1-426f-9247-bb680e5fe0c8\",\"exp\":1700086400}".to_vec()
    );
    let early = Claims { subject: 0, expiry: -5 };
    assert_eq!(
        early.to_bytes(),
        b"{\"sub\":\"00000000-0000-0000-0000-000000000000\",\"exp\":-5}".to_vec()
    );
}

#[test]
fn reading_undoes_writing_of_claims() {
    for (subject, expiry) in [(0u128, 0i64), (1, -1), (u128::MAX, i64::MAX), (42, i64::MIN), (7 << 100, 1_700_086_400)] {
        let claims = Claims { subject, expiry };
        assert_eq!(Claims::parse(&claims.to_bytes()), Some(claims));
    }
}

#[test]
fn reads_claims_among_members_it_does_not_know() {
    let payload = b" { \"iat\" : 1516239022, \"sub\":\"67E55044-10B1-426F-9247-BB680E5FE0C8\", \"roles\":[\"a\",{\"b\":[1,2.5e3,true,null]}], \"exp\": 1700086400 , \"note\":\"a\\\"b\" } ";
    assert_eq!(
        Claims::parse(payload),
        Some(Claims { subject: 0x67e55044_10b1_426f_9247_bb680e5fe0c8, expiry: 1_700_086_400 })
    );
}

#[test]
fn refuses_claims_that_are_missing_doubled_or_of_the_wrong_kind() {
    let id = "\"67e55044-10b1-426f-9247-bb680e5fe0c8\"";
    for payload in [
        format!("{{\"sub\":{id}}}"),
        "{\"exp\":1700086400}".to_string(),
        format!("{{\"sub\":{id},\"exp\":1700086400,\"exp\":1700086401}}"),
        format!("{{\"sub\":{id},\"sub\":{id},\"exp\":1700086400}}"),
        format!("{{\"sub\":{id},\"exp\":\"1700086400\"}}"),
        format!("{{\"sub\":{id},\"exp\":1700086400.0}}"),
        format!("{{\"sub\":{id},\"exp\":17e8}}"),
        format!("{{\"sub\":{id},\"exp\":9223372036854775808}}"),
        format!("{{\"sub\":{id},\"exp\":null}}"),
        "{\"sub\":\"1234567890\",\"exp\":1700086400}".to_string(),
        "{\"sub\":12,\"exp\":1700086400}".to_string(),
        format!("[{id},1700086400]"),
        String::new(),
    ] {
        assert_eq!(Claims::parse(payload.as_bytes()), None, "{payload}");
    }
}

#[test]
fn accepts_the_header_it_writes() {
    assert_eq!(header_bytes(), b"{\"alg\":\"HS256\",\"typ\":\"JWT\"}".to_vec());
    assert!(accepts_header(&header_bytes()));
}

#[test]
fn accepts_a_header_by_its_algorithm_alone() {
    assert!(accepts_header(b"{\"typ\":\"JWT\",\"alg\":\"HS256\"}"));
    assert!(accepts_header(b"{ \"alg\" : \"HS256\" }"));
    assert!(accepts_header(b"{\"alg\":\"HS256\",\"kid\":7}"));
    assert!(!accepts_header(b"{\"alg\":\"none\",\"typ\":\"JWT\"}"));
    assert!(!accepts_header(b"{\"alg\":\"HS384\"}"));
    assert!(!accepts_header(b"{\"alg\":\"hs256\"}"));
    assert!(!accepts_header(b"{\"alg\":\"HS256\",\"alg\":\"HS256\"}"));
    assert!(!accepts_header(b"{\"typ\":\"JWT\"}"));
    assert!(!accepts_header(b"{}"));
    assert!(!accepts_header(b"\"HS256\""));
}

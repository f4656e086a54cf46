use management_company_backend::encoding::{decode, encode};
use management_company_backend::mac::constant_time_eq;

#[test]
fn encodes_the_reference_vectors() {
    assert_eq!(encode(b""), b"".to_vec());
    assert_eq!(encode(b"f"), b"Zg".to_vec());
    assert_eq!(encode(b"fo"), b"Zm8".to_vec());
    assert_eq!(encode(b"foo"), b"Zm9v".to_vec());
    assert_eq!(encode(b"foob"), b"Zm9vYg".to_vec());
    assert_eq!(encode(b"fooba"), b"Zm9vYmE".to_vec());
    assert_eq!(encode(b"foobar"), b"Zm9vYmFy".to_vec());
}

#[test]
fn encodes_with_the_url_safe_alphabet() {
    assert_eq!(encode(&[0xfb, 0xff]), b"-_8".to_vec());
    assert_eq!(encode(&[0xff, 0xff, 0xff]), b"____".to_vec());
    assert_eq!(encode(&[0x00, 0x00, 0x00]), b"AAAA".to_vec());
}

#[test]
fn decodes_the_reference_vectors() {
    assert_eq!(decode(b""), Some(b"".to_vec()));
    assert_eq!(decode(b"Zg"), Some(b"f".to_vec()));
    assert_eq!(decode(b"Zm8"), Some(b"fo".to_vec()));
    assert_eq!(decode(b"Zm9v"), Some(b"foo".to_vec()));
    assert_eq!(decode(b"Zm9vYmFy"), Some(b"foobar".to_vec()));
    assert_eq!(decode(b"-_8"), Some(vec![0xfb, 0xff]));
}

#[test]
fn decoding_undoes_encoding_for_every_length_up_to_64() {
    let mut data: Vec<u8> = Vec::new();
    for n in 0..64u32 {
        assert_eq!(decode(&encode(&data)), Some(data.clone()));
        data.push((n * 37 + 11) as u8);
    }
}

#[test]
fn decoding_refuses_foreign_characters() {
    assert_eq!(decode(b"Zm9v="), None);
    assert_eq!(decode(b"Zg=="), None);
    assert_eq!(decode(b"Zm+v"), None);
    assert_eq!(decode(b"Zm/v"), None);
    assert_eq!(decode(b"Zm.v"), None);
    assert_eq!(decode(b"Zm 9"), None);
    assert_eq!(decode(b"Zm9\n"), None);
}

#[test]
fn decoding_refuses_a_dangling_character() {
    assert_eq!(decode(b"Z"), None);
    assert_eq!(decode(b"Zm9vY"), None);
}

#[test]
fn decoding_refuses_spare_bits_that_are_not_zero() {
    // "Zg" spells "f"; "Zh" differs from it in a bit that no byte receives.
    assert_eq!(decode(b"Zh"), None);
    assert_eq!(decode(b"Zm9"), None);
    assert_eq!(decode(b"Zm8"), Some(b"fo".to_vec()));
}

#[test]
fn constant_time_eq_compares_contents_and_lengths() {
    assert!(constant_time_eq(b"", b""));
    assert!(constant_time_eq(b"abc", b"abc"));
    assert!(!constant_time_eq(b"abc", b"abd"));
    assert!(!constant_time_eq(b"abc", b"bbc"));
    assert!(!constant_time_eq(b"abc", b"abcd"));
    assert!(!constant_time_eq(b"abc", b""));
}

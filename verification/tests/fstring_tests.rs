use sbp_codec::error::ParseError;
use sbp_codec::fstring::{fstring, write_fstring, FStr};

#[test]
fn check_fstring() {
    const DATA: [u8; 0x52] = [
        0x4E, 0x00, 0x00, 0x00, 0x2F, 0x47, 0x61, 0x6D, 0x65, 0x2F, 0x46, 0x61, 0x63, 0x74, 0x6F,
        0x72, 0x79, 0x47, 0x61, 0x6D, 0x65, 0x2F, 0x52, 0x65, 0x73, 0x6F, 0x75, 0x72, 0x63, 0x65,
        0x2F, 0x50, 0x61, 0x72, 0x74, 0x73, 0x2F, 0x53, 0x74, 0x65, 0x65, 0x6C, 0x50, 0x6C, 0x61,
        0x74, 0x65, 0x2F, 0x44, 0x65, 0x73, 0x63, 0x5F, 0x53, 0x74, 0x65, 0x65, 0x6C, 0x50, 0x6C,
        0x61, 0x74, 0x65, 0x2E, 0x44, 0x65, 0x73, 0x63, 0x5F, 0x53, 0x74, 0x65, 0x65, 0x6C, 0x50,
        0x6C, 0x61, 0x74, 0x65, 0x5F, 0x43, 0x00,
    ];
    const STRING: &str =
        "/Game/FactoryGame/Resource/Parts/SteelPlate/Desc_SteelPlate.Desc_SteelPlate_C\0";

    let (factory_string, rest) = fstring(&DATA[..], 0).expect("Parser should succeed");
    assert_eq!(rest, DATA.len());
    assert_eq!(factory_string.len(), DATA.len() - 4);
    assert_eq!(factory_string.content, STRING.as_bytes());

    let mut buf = Vec::new();
    write_fstring(&mut buf, &factory_string);
    assert_eq!(buf, DATA);
}

#[test]
fn check_empty_fstring() {
    // An empty factory string is four zero length bytes and no content.
    const DATA: [u8; 4] = [0x00, 0x00, 0x00, 0x00];
    let (s, n) = fstring(&DATA[..], 0).expect("Parse should succeed");
    assert_eq!(n, 4);
    assert_eq!(s.len(), 0);
    assert!(s.content.is_empty());

    let mut buf = Vec::new();
    write_fstring(&mut buf, &s);
    assert_eq!(buf, DATA);
}

#[test]
fn check_fstring_missing_nul() {
    // Non-empty content whose final byte is not NUL is rejected.
    const DATA: [u8; 5] = [0x01, 0x00, 0x00, 0x00, 0x41];
    let err = fstring(&DATA[..], 0).expect_err("Parse should fail");
    assert_eq!(err, ParseError::TagMismatch { offset: 4, expected: 0, actual: 0x41 });
}

#[test]
fn check_fstring_truncated() {
    // The declared length runs past the end of the input.
    const DATA: [u8; 6] = [0x05, 0x00, 0x00, 0x00, 0x41, 0x00];
    let err = fstring(&DATA[..], 0).expect_err("Parse should fail");
    assert_eq!(err, ParseError::UnexpectedEndOfInput { offset: 4 });
}

#[test]
fn check_fstring_invalid_utf8() {
    // 0xFF can never appear in UTF-8.
    const DATA: [u8; 6] = [0x02, 0x00, 0x00, 0x00, 0xFF, 0x00];
    let err = fstring(&DATA[..], 0).expect_err("Parse should fail");
    assert_eq!(err, ParseError::InvalidUtf8 { start: 4, end: 6 });
}

#[test]
fn check_fstring_overlong_utf8() {
    // 0xC0 0x80 is the overlong encoding of NUL and is rejected.
    const DATA: [u8; 7] = [0x03, 0x00, 0x00, 0x00, 0xC0, 0x80, 0x00];
    let err = fstring(&DATA[..], 0).expect_err("Parse should fail");
    assert_eq!(err, ParseError::InvalidUtf8 { start: 4, end: 7 });
}

#[test]
fn check_fstring_multibyte_utf8() {
    // A two-byte code point round-trips.
    const DATA: [u8; 7] = [0x03, 0x00, 0x00, 0x00, 0xC3, 0xA9, 0x00];
    let (s, n) = fstring(&DATA[..], 0).expect("Parse should succeed");
    assert_eq!(n, 7);
    assert_eq!(std::str::from_utf8(&s.content).unwrap(), "\u{e9}\0");
    let mut buf = Vec::new();
    write_fstring(&mut buf, &s);
    assert_eq!(buf, DATA);
}

#[test]
fn check_fstr_size() {
    let s = FStr::new(b"None\0".to_vec());
    assert_eq!(s.len(), 5);
    assert_eq!(s.size(), 9);
}

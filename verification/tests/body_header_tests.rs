use sbp_codec::body_header::{
    body_header, body_header_version, write_body_header, BodyHeader, BodyHeaderVersion,
    COMPRESSION_ALGORITHM,
};
use sbp_codec::error::ParseError;

#[test]
fn check_body_header_version_1() {
    const DATA: &[u8] = &[0x00; 4];
    let (version, _) = body_header_version(DATA, 0).expect("Parse should succeed");

    assert_eq!(version, BodyHeaderVersion::V1)
}

#[test]
fn check_body_header_version_2() {
    const DATA: &[u8] = &[0x22; 4];
    let (version, _) = body_header_version(DATA, 0).expect("Parse should succeed");

    assert_eq!(version, BodyHeaderVersion::V2)
}

#[test]
fn check_body_header_version_fail() {
    const DATA: &[u8] = &[0x11; 4];
    let error = body_header_version(DATA, 0).expect_err("Parse should FAIL");
    assert_eq!(error, ParseError::UnknownHeaderVersion { offset: 0, value: 0x11111111 });
}

#[test]
fn check_body_header() {
    const DATA: [u8; 0x31] = [
        0xC1, 0x83, 0x2A, 0x9E, 0x22, 0x22, 0x22, 0x22, 0x00, 0x00, 0x02, 0x00, 0x00, 0x00, 0x00,
        0x00, 0x03, 0x4D, 0x02, 0x00, 0x00, 0x00, 0x00, 0x00, 0x00, 0xD5, 0x0A, 0x00, 0x00, 0x00,
        0x00, 0x00, 0x00, 0x4D, 0x02, 0x00, 0x00, 0x00, 0x00, 0x00, 0x00, 0xD5, 0x0A, 0x00, 0x00,
        0x00, 0x00, 0x00, 0x00,
    ];
    const CORRECT: BodyHeader = BodyHeader {
        header_version: BodyHeaderVersion::V2,
        max_chunk_size: 131072,
        compression_algorithm: COMPRESSION_ALGORITHM,
        compressed_size: 589,
        uncompressed_size: 2773,
    };

    let (parsed, n) = body_header(&DATA[..], 0).expect("Parse should succeed");
    assert_eq!(n, DATA.len());
    assert_eq!(parsed, CORRECT);

    let mut buf = Vec::new();
    write_body_header(&mut buf, &parsed);
    assert_eq!(buf, DATA);
}

#[test]
fn check_body_header_magic_mismatch() {
    const DATA: [u8; 4] = [0xC1, 0x83, 0x2A, 0x9F];
    let err = body_header(&DATA[..], 0).expect_err("Parse should fail");
    assert_eq!(err, ParseError::TagMismatch { offset: 3, expected: 0x9E, actual: 0x9F });
}

#[test]
fn check_body_header_corrupt_framing() {
    // The duplicated compressed size disagrees with its first occurrence.
    let mut data = Vec::new();
    let h = BodyHeader::new(BodyHeaderVersion::V1, COMPRESSION_ALGORITHM, 589, 2773);
    write_body_header(&mut data, &h);
    data[33] = 0x4E;  // second compressed size: 590 instead of 589
    let err = body_header(&data, 0).expect_err("Parse should fail");
    assert_eq!(err, ParseError::CorruptFraming { offset: 33, expected: 589, actual: 590 });
}

#[test]
fn check_body_header_new() {
    let h = BodyHeader::new(BodyHeaderVersion::V1, COMPRESSION_ALGORITHM, 1, 2);
    assert_eq!(h.header_version, BodyHeaderVersion::V1);
    assert_eq!(h.max_chunk_size, 131072);
    assert_eq!(h.compression_algorithm, COMPRESSION_ALGORITHM);
    assert_eq!(h.compressed_size, 1);
    assert_eq!(h.uncompressed_size, 2);
}

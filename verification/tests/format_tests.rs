use sbp_codec::body::{blueprint_body, write_blueprint_body, BlueprintBody};
use sbp_codec::bp_write::BPWrite;
use sbp_codec::byte_property::{byte_property, write_byte_property, ByteProperty, ByteType};
use sbp_codec::error::ParseError;
use sbp_codec::fstring::FStr;
use sbp_codec::header::{parse_header, write_header, Header};
use sbp_codec::body_header::{BodyHeader, BodyHeaderVersion, COMPRESSION_ALGORITHM};
use sbp_codec::requirements::{requirements, write_requirements, ModRequirement};
use sbp_codec::resource::Resource;

#[test]
fn check_byte_property_string_value() {
    // the reserved string-valued byte case: the discriminator string is the
    // value itself, and the declared size is its wire length
    let mut data = Vec::new();
    data.extend_from_slice(&[0x08, 0, 0, 0]);
    data.extend_from_slice(&[0, 0, 0, 0]);
    data.extend_from_slice(&[0x04, 0, 0, 0]);
    data.extend_from_slice(b"Lit\0");

    let (prop, n) = byte_property(&data, 0).expect("Parse should succeed");
    assert_eq!(n, data.len());
    assert_eq!(prop.index, 0);
    assert_eq!(prop.value, ByteType::FString(FStr::new(b"Lit\0".to_vec())));
    assert_eq!(prop.size() as usize, data.len());

    let mut buf = Vec::new();
    write_byte_property(&mut buf, &prop);
    assert_eq!(buf, data);
}

#[test]
fn check_bp_write_primitives() {
    let mut buf = Vec::new();
    0x11223344u32.bp_write(&mut buf);
    0xAAu8.bp_write(&mut buf);
    (-2i32).bp_write(&mut buf);
    0x0102030405060708u64.bp_write(&mut buf);
    assert_eq!(
        buf,
        [
            0x44, 0x33, 0x22, 0x11, 0xAA, 0xFE, 0xFF, 0xFF, 0xFF, 0x08, 0x07, 0x06, 0x05, 0x04,
            0x03, 0x02, 0x01
        ]
    );
}

#[test]
fn check_bp_write_fstring() {
    let mut buf = Vec::new();
    FStr::new(b"None\0".to_vec()).bp_write(&mut buf);
    assert_eq!(buf, [0x05, 0x00, 0x00, 0x00, 0x4E, 0x6F, 0x6E, 0x65, 0x00]);
}

#[test]
fn check_requirements() {
    // two mod names; three zero padding bytes after the first are consumed
    // greedily and recorded
    let mut data = Vec::new();
    data.extend_from_slice(&2u64.to_le_bytes());
    data.extend_from_slice(&[0x05, 0, 0, 0]);
    data.extend_from_slice(b"ModA\0");
    data.extend_from_slice(&[0, 0, 0]);
    data.extend_from_slice(&[0x05, 0, 0, 0]);
    data.extend_from_slice(b"ModB\0");
    data.push(0xC1);  // the framing magic would follow here

    let (ms, n) = requirements(&data, 0).expect("Parse should succeed");
    assert_eq!(n, data.len() - 1);
    assert_eq!(
        ms,
        vec![
            ModRequirement { name: FStr::new(b"ModA\0".to_vec()), padding: 3 },
            ModRequirement { name: FStr::new(b"ModB\0".to_vec()), padding: 0 },
        ]
    );

    let mut buf = Vec::new();
    write_requirements(&mut buf, &ms);
    assert_eq!(buf, data[..data.len() - 1]);
}

#[test]
fn check_empty_body_round_trip() {
    // a body with no objects still carries all five framing words
    let body = BlueprintBody { object_headers: vec![], objects: vec![] };
    let mut data = Vec::new();
    write_blueprint_body(&mut data, &body);
    assert_eq!(
        data,
        [
            0x10, 0, 0, 0,  // total: both blocks plus eight
            0x04, 0, 0, 0,  // headers block: just its count word
            0x00, 0, 0, 0,  // no headers
            0x04, 0, 0, 0,  // objects block: just its count word
            0x00, 0, 0, 0,  // no objects
        ]
    );
    let (parsed, n) = blueprint_body(&data, 0).expect("parse should succeed");
    assert_eq!(n, data.len());
    assert_eq!(parsed, body);
}

#[test]
fn check_body_total_size_mismatch() {
    let body = BlueprintBody { object_headers: vec![], objects: vec![] };
    let mut data = Vec::new();
    write_blueprint_body(&mut data, &body);
    data[0] = 0x11;  // total should be 0x10
    let err = blueprint_body(&data, 0).expect_err("parse should fail");
    assert_eq!(err, ParseError::CorruptFraming { offset: 0, expected: 0x10, actual: 0x11 });
}

#[test]
fn check_body_block_size_mismatch() {
    let body = BlueprintBody { object_headers: vec![], objects: vec![] };
    let mut data = Vec::new();
    write_blueprint_body(&mut data, &body);
    data[4] = 0x05;  // headers block size should be 4
    let err = blueprint_body(&data, 0).expect_err("parse should fail");
    assert_eq!(err, ParseError::CorruptFraming { offset: 4, expected: 4, actual: 5 });
}

#[test]
fn check_header_round_trip() {
    let header = Header {
        preamble: (0u8..24u8).collect(),
        resources: vec![
            Resource::new(b"/Game/A".to_vec(), 1),
            Resource::new(b"/Game/B".to_vec(), 2),
        ],
        requirements: vec![],
        body_header: BodyHeader::new(BodyHeaderVersion::V1, COMPRESSION_ALGORITHM, 7, 9),
    };
    let mut data = Vec::new();
    write_header(&mut data, &header);
    let (parsed, n) = parse_header(&data, 0).expect("Parse should succeed");
    assert_eq!(n, data.len());
    assert_eq!(parsed, header);
}

use sbp_codec::actor_header::{ActorHeader, ObjectHeaderType};
use sbp_codec::blueprint::{parse_blueprint, serialize_blueprint, Blueprint};
use sbp_codec::body::{blueprint_body, write_blueprint_body, ActorObject, BlueprintBody, ObjectType};
use sbp_codec::body_header::{BodyHeader, BodyHeaderVersion, COMPRESSION_ALGORITHM};
use sbp_codec::byte_property::{ByteProperty, ByteType};
use sbp_codec::error::ParseError;
use sbp_codec::fstring::FStr;
use sbp_codec::header::{parse_header, write_header_with_sizes, Header};
use sbp_codec::property_list::{Property, PropertyList, PropertyType};
use sbp_codec::requirements::ModRequirement;
use sbp_codec::resource::Resource;
use sbp_codec::zlib::{zlib_compress, zlib_decompress};

fn sample_actor_header() -> ActorHeader {
    ActorHeader {
        type_path: FStr::new(
            b"/Game/FactoryGame/Prototype/Buildable/Beams/Build_Beam_Painted.Build_Beam_Painted_C\0"
                .to_vec(),
        ),
        root_object: FStr::new(b"Persistent_Level\0".to_vec()),
        instance_name: FStr::new(
            b"Persistent_Level:PersistentLevel.Build_Beam_Painted_C_2145391819\0".to_vec(),
        ),
        unknown: 1,
        rotation_x: 0.0f32.to_bits(),
        rotation_y: 0.0f32.to_bits(),
        rotation_z: (-std::f32::consts::FRAC_1_SQRT_2).to_bits(),
        rotation_w: std::f32::consts::FRAC_1_SQRT_2.to_bits(),
        position_x: 200.0f32.to_bits(),
        position_y: (-1200.0f32).to_bits(),
        position_z: 200.0f32.to_bits(),
        scale_x: 1.0f32.to_bits(),
        scale_y: 1.0f32.to_bits(),
        scale_z: 1.0f32.to_bits(),
    }
}

fn sample_object() -> ObjectType {
    ObjectType::Actor(ActorObject {
        properties: PropertyList(vec![
            Property {
                name: FStr::new(b"mColorSlot\0".to_vec()),
                property: PropertyType::ByteProperty(ByteProperty {
                    index: 0,
                    value: ByteType::Byte(0xFF),
                }),
            },
            Property {
                name: FStr::new(b"None\0".to_vec()),
                property: PropertyType::Sentinel,
            },
        ]),
    })
}

fn sample_body() -> BlueprintBody {
    BlueprintBody {
        object_headers: vec![ObjectHeaderType::Actor(sample_actor_header())],
        objects: vec![sample_object()],
    }
}

fn sample_blueprint() -> Blueprint {
    Blueprint {
        header: Header {
            preamble: vec![
                0x02, 0x00, 0x00, 0x00, 0x2E, 0x00, 0x00, 0x00, 0x24, 0x2F, 0x00, 0x00, 0x06,
                0x00, 0x00, 0x00, 0x00, 0x00, 0x00, 0x00, 0x00, 0x00, 0x00, 0x00,
            ],
            resources: vec![Resource::new(
                b"/Game/FactoryGame/Resource/Parts/SteelPlate/Desc_SteelPlate.Desc_SteelPlate_C"
                    .to_vec(),
                2,
            )],
            requirements: vec![ModRequirement {
                name: FStr::new(b"FactoryGame\0".to_vec()),
                padding: 0,
            }],
            body_header: BodyHeader::new(BodyHeaderVersion::V2, COMPRESSION_ALGORITHM, 0, 0),
        },
        body: sample_body(),
    }
}

#[test]
fn check_blueprint_body() {
    let body = sample_body();
    let mut data = Vec::new();
    write_blueprint_body(&mut data, &body);

    let (parsed, n) = blueprint_body(&data, 0).expect("parse should succeed");
    assert_eq!(n, data.len());
    assert_eq!(parsed, body);

    let mut buf = Vec::new();
    write_blueprint_body(&mut buf, &parsed);
    assert_eq!(buf, data);
}

#[test]
fn check_parse() {
    let data = serialize_blueprint(&sample_blueprint());

    let (header, rest) = parse_header(&data, 0).expect("header parse should succeed");
    assert_eq!(header.resources.len(), 1);
    assert_eq!(header.requirements.len(), 1);
    assert_eq!(
        rest + header.body_header.compressed_size as usize,
        data.len()
    );
}

#[test]
fn check_blueprint() {
    let data = serialize_blueprint(&sample_blueprint());

    let blueprint = Blueprint::new(&data).expect("Parse should succeed");

    let buf = serialize_blueprint(&blueprint);

    // the header region is reproduced byte-identically
    let header_len = data.len() - blueprint.header.body_header.compressed_size as usize;
    assert_eq!(&buf[..header_len], &data[..header_len]);

    // the re-emitted payload decompresses to the original body bytes
    let original_body =
        zlib_decompress(&data[header_len..]).expect("decompression should succeed");
    let reemitted_body =
        zlib_decompress(&buf[header_len..]).expect("decompression should succeed");
    assert_eq!(original_body, reemitted_body);

    // with one compressor, the whole file round-trips byte-exactly
    assert_eq!(buf, data);
}

#[test]
fn check_blueprint_body_bytes() {
    // the decompressed payload of a serialized blueprint is exactly the
    // serialized body
    let bp = sample_blueprint();
    let data = serialize_blueprint(&bp);
    let (header, rest) = parse_header(&data, 0).expect("header parse should succeed");

    let mut body_bytes = Vec::new();
    write_blueprint_body(&mut body_bytes, &bp.body);

    let payload = &data[rest..];
    assert_eq!(payload.len() as u64, header.body_header.compressed_size);
    let decompressed = zlib_decompress(payload).expect("decompression should succeed");
    assert_eq!(decompressed, body_bytes);
    assert_eq!(decompressed.len() as u64, header.body_header.uncompressed_size);
}

#[test]
fn check_compression_error() {
    // a payload that is not a zlib stream is rejected
    let mut data = Vec::new();
    let bp = sample_blueprint();
    write_header_with_sizes(&mut data, &bp.header, 5, 99);
    let header_len = data.len();
    data.extend_from_slice(&[0xFF, 0xFF, 0xFF, 0xFF, 0xFF]);
    let err = parse_blueprint(&data).expect_err("Parse should fail");
    assert_eq!(err, ParseError::CompressionError { offset: header_len });
}

#[test]
fn check_truncated_payload() {
    // fewer payload bytes than the framing declares
    let mut data = Vec::new();
    let bp = sample_blueprint();
    write_header_with_sizes(&mut data, &bp.header, 100, 99);
    let header_len = data.len();
    data.extend_from_slice(&[0x78, 0x9C]);
    let err = parse_blueprint(&data).expect_err("Parse should fail");
    assert_eq!(err, ParseError::UnexpectedEndOfInput { offset: header_len });
}

#[test]
fn check_zlib_round_trip() {
    let payload: Vec<u8> = (0..2048u32).map(|i| (i % 7) as u8).collect();
    let compressed = zlib_compress(&payload);
    assert_ne!(compressed, payload);
    let back = zlib_decompress(&compressed).expect("decompression should succeed");
    assert_eq!(back, payload);
}

#[test]
fn check_requirements_padding_round_trip() {
    // observed zero padding after a mod name is reproduced on write
    let mut bp = sample_blueprint();
    bp.header.requirements = vec![
        ModRequirement {
            name: FStr::new(b"FactoryGame\0".to_vec()),
            padding: 3,
        },
        ModRequirement {
            name: FStr::new(b"Mods\0".to_vec()),
            padding: 0,
        },
    ];
    let data = serialize_blueprint(&bp);
    let parsed = Blueprint::new(&data).expect("Parse should succeed");
    assert_eq!(parsed.header.requirements, bp.header.requirements);
    assert_eq!(serialize_blueprint(&parsed), data);
}

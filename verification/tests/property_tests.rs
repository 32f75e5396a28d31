use sbp_codec::actor_header::{actor_header, write_actor_header, ActorHeader};
use sbp_codec::byte_property::{byte_property, write_byte_property, ByteProperty, ByteType};
use sbp_codec::error::ParseError;
use sbp_codec::float_property::{float_property, write_float_property, FloatProperty};
use sbp_codec::fstring::FStr;
use sbp_codec::object_property::{object_property, write_object_property, ObjectProperty};
use sbp_codec::object_ref::{object_ref, write_object_ref, ObjectRef};
use sbp_codec::property_list::{
    linear_color, property, property_list, struct_property, write_property_list, LinearColor,
    Property, PropertyList, PropertyType, StructDataType, StructProperty,
};

#[test]
fn check_byte_property() {
    const DATA: [u8; 0x13] = [
        0x01, 0x00, 0x00, 0x00, 0x00, 0x00, 0x00, 0x00, 0x05, 0x00, 0x00, 0x00, 0x4E, 0x6F, 0x6E,
        0x65, 0x00, 0x00, 0xFF,
    ];

    let (property, n) = byte_property(&DATA[..], 0).expect("Parse should succeed");
    assert_eq!(n, DATA.len());

    assert_eq!(property.index, 0);
    assert_eq!(property.value, ByteType::Byte(0xFF));
    assert_eq!(property.size() as usize, DATA.len());

    let mut buf = Vec::new();
    write_byte_property(&mut buf, &property);
    assert_eq!(buf, DATA);
}

#[test]
fn check_byte_property_size_mismatch() {
    let mut data = vec![0x02, 0x00, 0x00, 0x00];  // size 2: the byte case needs 1
    data.extend_from_slice(&[0, 0, 0, 0, 0x05, 0, 0, 0]);
    data.extend_from_slice(b"None\0");
    data.extend_from_slice(&[0x00, 0xFF]);
    let err = byte_property(&data, 0).expect_err("Parse should fail");
    assert_eq!(
        err,
        ParseError::PropertySizeMismatch { name_start: 0, name_end: 0, expected: 2, actual: 1 }
    );
}

#[test]
fn check_float_property() {
    const DATA: [u8; 0x0D] = [
        0x04, 0x00, 0x00, 0x00, 0x00, 0x00, 0x00, 0x00, 0x00, 0x00, 0x00, 0xC8, 0x42,
    ];
    let (prop, n) = float_property(&DATA[..], 0).expect("Parse should succeed");
    assert_eq!(n, DATA.len());
    assert_eq!(prop.index, 0);
    assert_eq!(f32::from_bits(prop.value), 100.0);

    let mut buf = Vec::new();
    write_float_property(&mut buf, &prop);
    assert_eq!(buf, DATA);
}

#[test]
fn check_float_property_size_mismatch() {
    const DATA: [u8; 0x0D] = [
        0x05, 0x00, 0x00, 0x00, 0x00, 0x00, 0x00, 0x00, 0x00, 0x00, 0x00, 0xC8, 0x42,
    ];
    let err = float_property(&DATA[..], 0).expect_err("Parse should fail");
    assert_eq!(
        err,
        ParseError::PropertySizeMismatch { name_start: 0, name_end: 0, expected: 5, actual: 4 }
    );
}

#[test]
fn check_object_property() {
    const DATA: [u8; 0x67] = [
        0x5E, 0x00, 0x00, 0x00, 0x00, 0x00, 0x00, 0x00, 0x00, 0x00, 0x00, 0x00, 0x00, 0x56, 0x00,
        0x00, 0x00, 0x2F, 0x47, 0x61, 0x6D, 0x65, 0x2F, 0x46, 0x61, 0x63, 0x74, 0x6F, 0x72, 0x79,
        0x47, 0x61, 0x6D, 0x65, 0x2F, 0x50, 0x72, 0x6F, 0x74, 0x6F, 0x74, 0x79, 0x70, 0x65, 0x2F,
        0x42, 0x75, 0x69, 0x6C, 0x64, 0x61, 0x62, 0x6C, 0x65, 0x2F, 0x42, 0x65, 0x61, 0x6D, 0x73,
        0x2F, 0x52, 0x65, 0x63, 0x69, 0x70, 0x65, 0x5F, 0x42, 0x65, 0x61, 0x6D, 0x5F, 0x50, 0x61,
        0x69, 0x6E, 0x74, 0x65, 0x64, 0x2E, 0x52, 0x65, 0x63, 0x69, 0x70, 0x65, 0x5F, 0x42, 0x65,
        0x61, 0x6D, 0x5F, 0x50, 0x61, 0x69, 0x6E, 0x74, 0x65, 0x64, 0x5F, 0x43, 0x00,
    ];

    let (prop, n) = object_property(&DATA[..], 0).expect("Parse should succeed");
    assert_eq!(n, DATA.len());

    assert_eq!(prop.index, 0);
    assert_eq!(
        prop.reference.content,
        b"/Game/FactoryGame/Prototype/Buildable/Beams/Recipe_Beam_Painted.Recipe_Beam_Painted_C\0",
    );
    assert_eq!(prop.size() as usize, DATA.len());

    let mut buf = Vec::new();
    write_object_property(&mut buf, &prop);
    assert_eq!(buf, DATA);
}

#[test]
fn linear_color_check_linear_color() {
    const DATA: [u8; 0x10] = [
        0x3F, 0x2D, 0x79, 0x3C, 0x64, 0xEF, 0x0E, 0x3F, 0xEF, 0x90, 0x10, 0x3F, 0x00, 0x00, 0x80,
        0x3F,
    ];

    let (color, _) = linear_color(&DATA[..], 0).expect("Parse should succeed");

    assert_eq!(f32::from_bits(color.r).floor(), 0.0);
    assert_eq!(f32::from_bits(color.g).floor(), 0.0);
    assert_eq!(f32::from_bits(color.b).floor(), 0.0);
    assert_eq!(f32::from_bits(color.a).floor(), 1.0);
}

#[test]
fn struct_property_check_linear_color() {
    const DATA: [u8; 0x10] = [
        0x3F, 0x2D, 0x79, 0x3C, 0x64, 0xEF, 0x0E, 0x3F, 0xEF, 0x90, 0x10, 0x3F, 0x00, 0x00, 0x80,
        0x3F,
    ];

    let (color, n) = linear_color(&DATA[..], 0).expect("Parse should succeed");
    assert_eq!(n, DATA.len());

    assert_eq!(f32::from_bits(color.r).floor(), 0.0);
    assert_eq!(f32::from_bits(color.g).floor(), 0.0);
    assert_eq!(f32::from_bits(color.b).floor(), 0.0);
    assert_eq!(f32::from_bits(color.a).floor(), 1.0);
}

#[test]
fn check_struct_color() {
    const DATA: [u8; 0x39] = [
        0x10, 0x00, 0x00, 0x00, 0x00, 0x00, 0x00, 0x00, 0x0C, 0x00, 0x00, 0x00, 0x4C, 0x69, 0x6E,
        0x65, 0x61, 0x72, 0x43, 0x6F, 0x6C, 0x6F, 0x72, 0x00, 0x00, 0x00, 0x00, 0x00, 0x00, 0x00,
        0x00, 0x00, 0x00, 0x00, 0x00, 0x00, 0x00, 0x00, 0x00, 0x00, 0x00, 0x3F, 0x2D, 0x79, 0x3C,
        0x64, 0xEF, 0x0E, 0x3F, 0xEF, 0x90, 0x10, 0x3F, 0x00, 0x00, 0x80, 0x3F,
    ];

    let (prop, n) = struct_property(&DATA[..], 0).expect("Parse should succeed");
    assert_eq!(n, DATA.len());

    assert_eq!(prop.index, 0);
    assert!(matches!(prop.data, StructDataType::LinearColor(_)));
    assert_eq!(prop.size() as usize, DATA.len());

    let mut buf = Vec::new();
    sbp_codec::property_list::write_struct_property(&mut buf, &prop);
    assert_eq!(buf, DATA);
}

#[test]
fn check_struct_property_other() {
    const DATA: [u8; 0xD1] = [
        0x9B, 0x00, 0x00, 0x00, 0x00, 0x00, 0x00, 0x00, 0x19, 0x00, 0x00, 0x00, 0x46, 0x61, 0x63,
        0x74, 0x6F, 0x72, 0x79, 0x43, 0x75, 0x73, 0x74, 0x6F, 0x6D, 0x69, 0x7A, 0x61, 0x74, 0x69,
        0x6F, 0x6E, 0x44, 0x61, 0x74, 0x61, 0x00, 0x00, 0x00, 0x00, 0x00, 0x00, 0x00, 0x00, 0x00,
        0x00, 0x00, 0x00, 0x00, 0x00, 0x00, 0x00, 0x00, 0x00, 0x0B, 0x00, 0x00, 0x00, 0x53, 0x77,
        0x61, 0x74, 0x63, 0x68, 0x44, 0x65, 0x73, 0x63, 0x00, 0x0F, 0x00, 0x00, 0x00, 0x4F, 0x62,
        0x6A, 0x65, 0x63, 0x74, 0x50, 0x72, 0x6F, 0x70, 0x65, 0x72, 0x74, 0x79, 0x00, 0x67, 0x00,
        0x00, 0x00, 0x00, 0x00, 0x00, 0x00, 0x00, 0x00, 0x00, 0x00, 0x00, 0x5F, 0x00, 0x00, 0x00,
        0x2F, 0x47, 0x61, 0x6D, 0x65, 0x2F, 0x46, 0x61, 0x63, 0x74, 0x6F, 0x72, 0x79, 0x47, 0x61,
        0x6D, 0x65, 0x2F, 0x42, 0x75, 0x69, 0x6C, 0x64, 0x61, 0x62, 0x6C, 0x65, 0x2F, 0x2D, 0x53,
        0x68, 0x61, 0x72, 0x65, 0x64, 0x2F, 0x43, 0x75, 0x73, 0x74, 0x6F, 0x6D, 0x69, 0x7A, 0x61,
        0x74, 0x69, 0x6F, 0x6E, 0x2F, 0x53, 0x77, 0x61, 0x74, 0x63, 0x68, 0x65, 0x73, 0x2F, 0x53,
        0x77, 0x61, 0x74, 0x63, 0x68, 0x44, 0x65, 0x73, 0x63, 0x5F, 0x53, 0x6C, 0x6F, 0x74, 0x30,
        0x2E, 0x53, 0x77, 0x61, 0x74, 0x63, 0x68, 0x44, 0x65, 0x73, 0x63, 0x5F, 0x53, 0x6C, 0x6F,
        0x74, 0x30, 0x5F, 0x43, 0x00, 0x05, 0x00, 0x00, 0x00, 0x4E, 0x6F, 0x6E, 0x65, 0x00,
    ];

    let (prop, n) = struct_property(&DATA[..], 0).expect("Parse should succeed");
    assert_eq!(n, DATA.len());
    assert!(matches!(prop.data, StructDataType::Other { .. }));
    assert_eq!(prop.size() as usize, DATA.len());

    let mut buf = Vec::new();
    sbp_codec::property_list::write_struct_property(&mut buf, &prop);
    assert_eq!(buf, DATA);
}

#[test]
fn check_property_type_byte() {
    const DATA: [u8; 0x33] = [
        0x0B, 0x00, 0x00, 0x00, 0x6D, 0x43, 0x6F, 0x6C, 0x6F, 0x72, 0x53, 0x6C, 0x6F, 0x74, 0x00,
        0x0D, 0x00, 0x00, 0x00, 0x42, 0x79, 0x74, 0x65, 0x50, 0x72, 0x6F, 0x70, 0x65, 0x72, 0x74,
        0x79, 0x00, 0x01, 0x00, 0x00, 0x00, 0x00, 0x00, 0x00, 0x00, 0x05, 0x00, 0x00, 0x00, 0x4E,
        0x6F, 0x6E, 0x65, 0x00, 0x00, 0xFF,
    ];

    let (prop, n) = property(&DATA[..], 0).expect("Parse should succeed");
    assert_eq!(n, DATA.len());

    assert_eq!(prop.name.content, b"mColorSlot\0");
    assert!(matches!(prop.property, PropertyType::ByteProperty(_)));
}

#[test]
fn check_property_type_none() {
    const DATA: [u8; 0x09] = [0x05, 0x00, 0x00, 0x00, 0x4E, 0x6F, 0x6E, 0x65, 0x00];

    let (prop, n) = property(&DATA[..], 0).expect("Parse should succeed");
    assert_eq!(n, DATA.len());

    assert_eq!(prop.name.content, b"None\0");
    assert_eq!(prop.property, PropertyType::Sentinel);

    let mut buf = Vec::new();
    sbp_codec::property_list::write_property(&mut buf, &prop);
    assert_eq!(buf, DATA);
}

#[test]
fn check_property_list() {
    const DATA: [u8; 0x9B] = [
        0x0B, 0x00, 0x00, 0x00, 0x53, 0x77, 0x61, 0x74, 0x63, 0x68, 0x44, 0x65, 0x73, 0x63, 0x00,
        0x0F, 0x00, 0x00, 0x00, 0x4F, 0x62, 0x6A, 0x65, 0x63, 0x74, 0x50, 0x72, 0x6F, 0x70, 0x65,
        0x72, 0x74, 0x79, 0x00, 0x67, 0x00, 0x00, 0x00, 0x00, 0x00, 0x00, 0x00, 0x00, 0x00, 0x00,
        0x00, 0x00, 0x5F, 0x00, 0x00, 0x00, 0x2F, 0x47, 0x61, 0x6D, 0x65, 0x2F, 0x46, 0x61, 0x63,
        0x74, 0x6F, 0x72, 0x79, 0x47, 0x61, 0x6D, 0x65, 0x2F, 0x42, 0x75, 0x69, 0x6C, 0x64, 0x61,
        0x62, 0x6C, 0x65, 0x2F, 0x2D, 0x53, 0x68, 0x61, 0x72, 0x65, 0x64, 0x2F, 0x43, 0x75, 0x73,
        0x74, 0x6F, 0x6D, 0x69, 0x7A, 0x61, 0x74, 0x69, 0x6F, 0x6E, 0x2F, 0x53, 0x77, 0x61, 0x74,
        0x63, 0x68, 0x65, 0x73, 0x2F, 0x53, 0x77, 0x61, 0x74, 0x63, 0x68, 0x44, 0x65, 0x73, 0x63,
        0x5F, 0x53, 0x6C, 0x6F, 0x74, 0x30, 0x2E, 0x53, 0x77, 0x61, 0x74, 0x63, 0x68, 0x44, 0x65,
        0x73, 0x63, 0x5F, 0x53, 0x6C, 0x6F, 0x74, 0x30, 0x5F, 0x43, 0x00, 0x05, 0x00, 0x00, 0x00,
        0x4E, 0x6F, 0x6E, 0x65, 0x00,
    ];

    let (prop_list, n) = property_list(&DATA[..], 0).expect("Parse should succeed");
    assert_eq!(n, DATA.len());

    // the run keeps its terminating sentinel as the last record
    assert_eq!(prop_list.0.len(), 2);
    assert_eq!(prop_list.0[0].name.content, b"SwatchDesc\0");
    assert!(matches!(prop_list.0[0].property, PropertyType::ObjectProperty(_)));
    assert_eq!(prop_list.0[1].property, PropertyType::Sentinel);
    assert_eq!(prop_list.as_ref().len(), 2);

    let mut buf = Vec::new();
    write_property_list(&mut buf, &prop_list);
    assert_eq!(buf, DATA);
}

#[test]
fn check_unknown_property_kind() {
    let mut data = Vec::new();
    data.extend_from_slice(&[0x02, 0, 0, 0]);
    data.extend_from_slice(b"X\0");
    data.extend_from_slice(&[0x04, 0, 0, 0]);
    data.extend_from_slice(b"Foo\0");
    let err = property(&data, 0).expect_err("Parse should fail");
    assert_eq!(err, ParseError::UnknownPropertyKind { start: 10, end: 14 });
}

#[test]
fn check_size_mismatch_names_property() {
    // the size-mismatch error reports the span of the property's name
    let mut data = Vec::new();
    data.extend_from_slice(&[0x02, 0, 0, 0]);
    data.extend_from_slice(b"F\0");
    data.extend_from_slice(&[0x0E, 0, 0, 0]);
    data.extend_from_slice(b"FloatProperty\0");
    data.extend_from_slice(&[0x05, 0, 0, 0]);  // declared size 5, floats occupy 4
    data.extend_from_slice(&[0, 0, 0, 0, 0x00]);
    data.extend_from_slice(&[0, 0, 0xC8, 0x42]);
    let err = property(&data, 0).expect_err("Parse should fail");
    assert_eq!(
        err,
        ParseError::PropertySizeMismatch { name_start: 4, name_end: 6, expected: 5, actual: 4 }
    );
}

#[test]
fn check_object_ref() {
    const DATA: [u8; 0x4D] = [
        0x11, 0x00, 0x00, 0x00, 0x50, 0x65, 0x72, 0x73, 0x69, 0x73, 0x74, 0x65, 0x6E, 0x74, 0x5F,
        0x4C, 0x65, 0x76, 0x65, 0x6C, 0x00, 0x34, 0x00, 0x00, 0x00, 0x50, 0x65, 0x72, 0x73, 0x69,
        0x73, 0x74, 0x65, 0x6E, 0x74, 0x5F, 0x4C, 0x65, 0x76, 0x65, 0x6C, 0x3A, 0x50, 0x65, 0x72,
        0x73, 0x69, 0x73, 0x74, 0x65, 0x6E, 0x74, 0x4C, 0x65, 0x76, 0x65, 0x6C, 0x2E, 0x42, 0x75,
        0x69, 0x6C, 0x64, 0x61, 0x62, 0x6C, 0x65, 0x53, 0x75, 0x62, 0x73, 0x79, 0x73, 0x74, 0x65,
        0x6D, 0x00,
    ];

    let level = "Persistent_Level\0";
    let path = "Persistent_Level:PersistentLevel.BuildableSubsystem\0";

    let (object_ref, n) = object_ref(&DATA[..], 0).expect("Parse should succeed");
    assert_eq!(n, DATA.len());

    assert_eq!(object_ref.level_name.content, level.as_bytes());
    assert_eq!(object_ref.path_name.content, path.as_bytes());
    assert_eq!(object_ref.size() as usize, DATA.len());

    let mut buf = Vec::new();
    write_object_ref(&mut buf, &object_ref);
    assert_eq!(buf, DATA);
}

#[test]
fn check_actor_header() {
    const DATA: [u8; 0xE2] = [
        0x54, 0x00, 0x00, 0x00, 0x2F, 0x47, 0x61, 0x6D, 0x65, 0x2F, 0x46, 0x61, 0x63, 0x74, 0x6F,
        0x72, 0x79, 0x47, 0x61, 0x6D, 0x65, 0x2F, 0x50, 0x72, 0x6F, 0x74, 0x6F, 0x74, 0x79, 0x70,
        0x65, 0x2F, 0x42, 0x75, 0x69, 0x6C, 0x64, 0x61, 0x62, 0x6C, 0x65, 0x2F, 0x42, 0x65, 0x61,
        0x6D, 0x73, 0x2F, 0x42, 0x75, 0x69, 0x6C, 0x64, 0x5F, 0x42, 0x65, 0x61, 0x6D, 0x5F, 0x50,
        0x61, 0x69, 0x6E, 0x74, 0x65, 0x64, 0x2E, 0x42, 0x75, 0x69, 0x6C, 0x64, 0x5F, 0x42, 0x65,
        0x61, 0x6D, 0x5F, 0x50, 0x61, 0x69, 0x6E, 0x74, 0x65, 0x64, 0x5F, 0x43, 0x00, 0x11, 0x00,
        0x00, 0x00, 0x50, 0x65, 0x72, 0x73, 0x69, 0x73, 0x74, 0x65, 0x6E, 0x74, 0x5F, 0x4C, 0x65,
        0x76, 0x65, 0x6C, 0x00, 0x41, 0x00, 0x00, 0x00, 0x50, 0x65, 0x72, 0x73, 0x69, 0x73, 0x74,
        0x65, 0x6E, 0x74, 0x5F, 0x4C, 0x65, 0x76, 0x65, 0x6C, 0x3A, 0x50, 0x65, 0x72, 0x73, 0x69,
        0x73, 0x74, 0x65, 0x6E, 0x74, 0x4C, 0x65, 0x76, 0x65, 0x6C, 0x2E, 0x42, 0x75, 0x69, 0x6C,
        0x64, 0x5F, 0x42, 0x65, 0x61, 0x6D, 0x5F, 0x50, 0x61, 0x69, 0x6E, 0x74, 0x65, 0x64, 0x5F,
        0x43, 0x5F, 0x32, 0x31, 0x34, 0x35, 0x33, 0x39, 0x31, 0x38, 0x31, 0x39, 0x00, 0x01, 0x00,
        0x00, 0x00, 0x00, 0x00, 0x00, 0x00, 0x00, 0x00, 0x00, 0x00, 0xF3, 0x04, 0x35, 0xBF, 0xF3,
        0x04, 0x35, 0x3F, 0x00, 0x00, 0x48, 0x43, 0x00, 0x00, 0x96, 0xC4, 0x00, 0x00, 0x48, 0x43,
        0x00, 0x00, 0x80, 0x3F, 0x00, 0x00, 0x80, 0x3F, 0x00, 0x00, 0x80, 0x3F, 0x00, 0x00, 0x00,
        0x00,
    ];

    let correct = ActorHeader {
        type_path: FStr::new(
            b"/Game/FactoryGame/Prototype/Buildable/Beams/Build_Beam_Painted.Build_Beam_Painted_C\0"
                .to_vec(),
        ),
        root_object: FStr::new(b"Persistent_Level\0".to_vec()),
        instance_name: FStr::new(
            b"Persistent_Level:PersistentLevel.Build_Beam_Painted_C_2145391819\0".to_vec(),
        ),
        unknown: 1,
        rotation_x: 0.0f32.to_bits(),
        rotation_y: 0.0f32.to_bits(),
        rotation_z: (-std::f32::consts::FRAC_1_SQRT_2).to_bits(),
        rotation_w: std::f32::consts::FRAC_1_SQRT_2.to_bits(),
        position_x: 200.0f32.to_bits(),
        position_y: (-1200.0f32).to_bits(),
        position_z: 200.0f32.to_bits(),
        scale_x: 1.0f32.to_bits(),
        scale_y: 1.0f32.to_bits(),
        scale_z: 1.0f32.to_bits(),
    };

    let (parsed, n) = actor_header(&DATA[..], 0).expect("Parse should succeed");
    assert_eq!(n, DATA.len());

    assert_eq!(parsed, correct);
    assert_eq!(parsed.size() as usize, DATA.len());

    let mut buf = Vec::new();
    write_actor_header(&mut buf, &parsed);
    assert_eq!(buf, DATA);
}

#[test]
fn check_synthesized_list_round_trip() {
    // a tree built by hand serializes and parses back to itself
    let list = PropertyList(vec![
        Property {
            name: FStr::new(b"mColorSlot\0".to_vec()),
            property: PropertyType::ByteProperty(ByteProperty {
                index: 0,
                value: ByteType::Byte(0xFF),
            }),
        },
        Property {
            name: FStr::new(b"mSpeed\0".to_vec()),
            property: PropertyType::FloatProperty(FloatProperty {
                index: 0,
                value: 100.0f32.to_bits(),
            }),
        },
        Property {
            name: FStr::new(b"mColor\0".to_vec()),
            property: PropertyType::StructProperty(StructProperty {
                index: 0,
                data: StructDataType::LinearColor(LinearColor {
                    r: 0.5f32.to_bits(),
                    g: 0.25f32.to_bits(),
                    b: 0.125f32.to_bits(),
                    a: 1.0f32.to_bits(),
                }),
            }),
        },
        Property {
            name: FStr::new(b"None\0".to_vec()),
            property: PropertyType::Sentinel,
        },
    ]);

    let mut buf = Vec::new();
    write_property_list(&mut buf, &list);
    assert_eq!(buf.len() as u32, list.size());

    let (parsed, n) = property_list(&buf, 0).expect("Parse should succeed");
    assert_eq!(n, buf.len());
    assert_eq!(parsed, list);
}

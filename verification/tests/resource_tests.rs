use sbp_codec::resource::{resource, resources, write_resources, Resource, ResourceIter};
use sbp_codec::{next_i32, next_i64};

const STEEL: &str = "/Game/FactoryGame/Resource/Parts/SteelPlate/Desc_SteelPlate.Desc_SteelPlate_C";
const IRON: &str = "/Game/FactoryGame/Resource/Parts/IronPlate/Desc_IronPlate.Desc_IronPlate_C";
const CEMENT: &str = "/Game/FactoryGame/Resource/Parts/Cement/Desc_Cement.Desc_Cement_C";

/// One resource record: length-prefixed NUL-terminated path, then the count.
fn gen_resource(path: &str, count: i32) -> Vec<u8> {
    let mut resource = Vec::from(((path.len() + 1) as u32).to_le_bytes());
    resource.extend_from_slice(path.as_bytes());
    resource.push(b'\0');
    resource.extend_from_slice(&count.to_le_bytes());

    resource
}

/// The full section: a count, then the records, all but the last followed
/// by a four-byte zero separator.
fn gen_resource_list(resources: &[Vec<u8>]) -> Vec<u8> {
    let mut list = Vec::from((resources.len() as u64).to_le_bytes());
    for (i, r) in resources.iter().enumerate() {
        if i > 0 {
            list.extend_from_slice(&[0, 0, 0, 0]);
        }
        list.extend_from_slice(r);
    }

    list
}

#[test]
fn check_resources() {
    let test_bytes = gen_resource_list(&[gen_resource("/1", 1), gen_resource("/2", 2)]);

    let (resources, rest) = resources(&test_bytes, 0).expect("Test bytes should be valid");
    assert_eq!(rest, test_bytes.len());
    assert_eq!(
        resources,
        vec![
            Resource::new(b"/1".to_vec(), 1),
            Resource::new(b"/2".to_vec(), 2)
        ]
    );
}

#[test]
fn check_resources_test_file() {
    let test_bytes = gen_resource_list(&[
        gen_resource(STEEL, 2),
        gen_resource(IRON, 2),
        gen_resource(CEMENT, 2),
    ]);
    let test_resources = &[
        Resource::new(STEEL.as_bytes().to_vec(), 2),
        Resource::new(IRON.as_bytes().to_vec(), 2),
        Resource::new(CEMENT.as_bytes().to_vec(), 2),
    ];

    let (resources, rest) = resources(&test_bytes, 0).expect("Test bytes should be valid");
    assert_eq!(rest, test_bytes.len());
    assert_eq!(resources, test_resources);
}

#[test]
fn check_resource_test_file() {
    let test_bytes = gen_resource(STEEL, 2);

    let (resource, rest) = resource(&test_bytes, 0).expect("Test input should be valid");
    assert_eq!(rest, test_bytes.len());
    assert_eq!(resource, Resource::new(STEEL.as_bytes().to_vec(), 2));
}

#[test]
fn check_resources_round_trip() {
    let rs = vec![
        Resource::new(STEEL.as_bytes().to_vec(), 7),
        Resource::new(IRON.as_bytes().to_vec(), -1),
    ];
    let mut buf = Vec::new();
    write_resources(&mut buf, &rs);
    let (parsed, rest) = resources(&buf, 0).expect("Parse should succeed");
    assert_eq!(rest, buf.len());
    assert_eq!(parsed, rs);
}

#[test]
fn check_next_resource() {
    let mut bytes = gen_resource("/1", 1);
    bytes.extend_from_slice(&[0xAA, 0xBB]);
    let (res, rest) = Resource::next_resource(&bytes).expect("Parse should succeed");
    assert_eq!(res, Resource::new(b"/1".to_vec(), 1));
    assert_eq!(rest, &[0xAA, 0xBB]);
}

#[test]
fn check_resource_size() {
    let bytes = gen_resource("/1", 1);
    // length field (3) plus the length word and the count word
    assert_eq!(Resource::resource_size(&bytes), Some(11));
    assert_eq!(Resource::resource_size(&[0x01]), None);
}

#[test]
fn check_resource_iter() {
    let mut bytes = gen_resource("/1", 1);
    bytes.extend_from_slice(&gen_resource("/2", 2));
    let mut iter = ResourceIter(&bytes);
    assert_eq!(iter.next(), Some(Resource::new(b"/1".to_vec(), 1)));
    assert_eq!(iter.next(), Some(Resource::new(b"/2".to_vec(), 2)));
    assert_eq!(iter.next(), None);
}

#[test]
fn check_next_i32_i64() {
    assert_eq!(next_i32(&[0x2A, 0, 0, 0]), Some(42));
    assert_eq!(next_i32(&[0xFF, 0xFF, 0xFF, 0xFF]), Some(-1));
    assert_eq!(next_i32(&[1, 2, 3]), None);
    assert_eq!(next_i64(&[0x2A, 0, 0, 0, 0, 0, 0, 0]), Some(42));
    assert_eq!(next_i64(&[1, 2, 3, 4, 5, 6, 7]), None);
}

use apk_manifest::axml::{decode_xml, make_value, AttributeValue, XmlAttribute, XmlChunk};
use apk_manifest::error::ApkError;
use apk_manifest::manifest::{project_manifest, ManifestFields};

const NONE: u32 = 0xffff_ffff;
const T_REFERENCE: u8 = 0x01;
const T_STRING: u8 = 0x03;
const T_FLOAT: u8 = 0x04;
const T_DEC: u8 = 0x10;
const T_HEX: u8 = 0x11;
const T_BOOL: u8 = 0x12;

fn chunk(kind: u16, header: &[u8], body: &[u8]) -> Vec<u8> {
    let mut out = kind.to_le_bytes().to_vec();
    out.extend_from_slice(&((8 + header.len()) as u16).to_le_bytes());
    out.extend_from_slice(&((8 + header.len() + body.len()) as u32).to_le_bytes());
    out.extend_from_slice(header);
    out.extend_from_slice(body);
    out
}

fn pool_chunk(count: u32, flags: u32, records: &[Vec<u8>]) -> Vec<u8> {
    let mut header = Vec::new();
    header.extend_from_slice(&count.to_le_bytes());
    header.extend_from_slice(&0u32.to_le_bytes());
    header.extend_from_slice(&flags.to_le_bytes());
    header.extend_from_slice(&(28 + 4 * records.len() as u32).to_le_bytes());
    header.extend_from_slice(&0u32.to_le_bytes());
    let mut offsets = Vec::new();
    let mut data = Vec::new();
    for r in records {
        offsets.extend_from_slice(&(data.len() as u32).to_le_bytes());
        data.extend_from_slice(r);
    }
    while data.len() % 4 != 0 {
        data.push(0);
    }
    let mut body = offsets;
    body.extend_from_slice(&data);
    chunk(0x0001, &header, &body)
}

fn utf16_record(s: &str) -> Vec<u8> {
    let units: Vec<u16> = s.encode_utf16().collect();
    let mut out = Vec::new();
    if units.len() >= 0x8000 {
        out.extend_from_slice(&(0x8000u16 | (units.len() >> 16) as u16).to_le_bytes());
        out.extend_from_slice(&((units.len() & 0xffff) as u16).to_le_bytes());
    } else {
        out.extend_from_slice(&(units.len() as u16).to_le_bytes());
    }
    for u in units {
        out.extend_from_slice(&u.to_le_bytes());
    }
    out.extend_from_slice(&0u16.to_le_bytes());
    out
}

fn utf8_length(n: usize) -> Vec<u8> {
    if n >= 0x80 {
        vec![0x80 | (n >> 8) as u8, (n & 0xff) as u8]
    } else {
        vec![n as u8]
    }
}

fn utf8_record(s: &str) -> Vec<u8> {
    let mut out = utf8_length(s.encode_utf16().count());
    out.extend_from_slice(&utf8_length(s.len()));
    out.extend_from_slice(s.as_bytes());
    out.push(0);
    out
}

fn pool16(strings: &[&str]) -> Vec<u8> {
    let records: Vec<Vec<u8>> = strings.iter().map(|s| utf16_record(s)).collect();
    pool_chunk(strings.len() as u32, 0, &records)
}

fn pool8(strings: &[&str]) -> Vec<u8> {
    let records: Vec<Vec<u8>> = strings.iter().map(|s| utf8_record(s)).collect();
    pool_chunk(strings.len() as u32, 0x100, &records)
}

fn node(kind: u16, body: &[u8]) -> Vec<u8> {
    let mut header = 1u32.to_le_bytes().to_vec();
    header.extend_from_slice(&NONE.to_le_bytes());
    chunk(kind, &header, body)
}

fn attribute(ns: u32, name: u32, raw: u32, data_type: u8, data: u32) -> Vec<u8> {
    let mut out = Vec::new();
    out.extend_from_slice(&ns.to_le_bytes());
    out.extend_from_slice(&name.to_le_bytes());
    out.extend_from_slice(&raw.to_le_bytes());
    out.extend_from_slice(&8u16.to_le_bytes());
    out.push(0);
    out.push(data_type);
    out.extend_from_slice(&data.to_le_bytes());
    out
}

fn start_element(ns: u32, name: u32, attributes: &[Vec<u8>]) -> Vec<u8> {
    let mut body = Vec::new();
    body.extend_from_slice(&ns.to_le_bytes());
    body.extend_from_slice(&name.to_le_bytes());
    body.extend_from_slice(&20u16.to_le_bytes());
    body.extend_from_slice(&20u16.to_le_bytes());
    body.extend_from_slice(&(attributes.len() as u16).to_le_bytes());
    body.extend_from_slice(&[0u8; 6]);
    for a in attributes {
        body.extend_from_slice(a);
    }
    node(0x0102, &body)
}

fn two_indices(kind: u16, first: u32, second: u32) -> Vec<u8> {
    let mut body = first.to_le_bytes().to_vec();
    body.extend_from_slice(&second.to_le_bytes());
    node(kind, &body)
}

fn end_element(ns: u32, name: u32) -> Vec<u8> {
    two_indices(0x0103, ns, name)
}

fn cdata(text: u32) -> Vec<u8> {
    let mut body = text.to_le_bytes().to_vec();
    body.extend_from_slice(&8u16.to_le_bytes());
    body.push(0);
    body.push(0);
    body.extend_from_slice(&0u32.to_le_bytes());
    node(0x0104, &body)
}

fn resource_map(ids: &[u32]) -> Vec<u8> {
    let mut body = Vec::new();
    for id in ids {
        body.extend_from_slice(&id.to_le_bytes());
    }
    chunk(0x0180, &[], &body)
}

fn document(chunks: &[Vec<u8>]) -> Vec<u8> {
    let mut body = Vec::new();
    for c in chunks {
        body.extend_from_slice(c);
    }
    chunk(0x0003, &[], &body)
}

const STRINGS: [&str; 18] = [
    "manifest",
    "package",
    "versionCode",
    "versionName",
    "uses-sdk",
    "minSdkVersion",
    "targetSdkVersion",
    "maxSdkVersion",
    "application",
    "icon",
    "label",
    "com.example.app",
    "1.2.3",
    "My App",
    "res/icon.png",
    "compileSdkVersion",
    "android",
    "http://schemas.android.com/apk/res/android",
];

fn sample(pool: Vec<u8>) -> Vec<u8> {
    document(&[
        pool,
        resource_map(&[0x0101_021b, 0x0101_021c]),
        two_indices(0x0100, 16, 17),
        start_element(NONE, 0, &[
            attribute(17, 2, NONE, T_DEC, 7),
            attribute(NONE, 1, 11, T_STRING, 11),
        ]),
        start_element(NONE, 4, &[
            attribute(17, 5, NONE, T_DEC, 21),
            attribute(17, 6, NONE, T_DEC, 33),
        ]),
        end_element(NONE, 4),
        end_element(NONE, 0),
        two_indices(0x0101, 16, 17),
    ])
}

fn fields_of(bytes: &[u8]) -> ManifestFields {
    project_manifest(&decode_xml(bytes).unwrap())
}

fn assert_sample_fields(f: &ManifestFields) {
    assert_eq!(f.package, Some("com.example.app".to_string()));
    assert_eq!(f.version_code, Some(7));
    assert_eq!(f.min_sdk_version, Some(21));
    assert_eq!(f.target_sdk_version, Some(33));
    assert_eq!(f.version_name, None);
    assert_eq!(f.compile_sdk_version, None);
    assert_eq!(f.compile_sdk_version_codename, None);
    assert_eq!(f.platform_build_version_code, None);
    assert_eq!(f.platform_build_version_name, None);
    assert_eq!(f.max_sdk_version, None);
    assert_eq!(f.icon, None);
    assert_eq!(f.label, None);
}

#[test]
fn manifest_with_package_version_and_sdk_bounds() {
    assert_sample_fields(&fields_of(&sample(pool16(&STRINGS))));
}

#[test]
fn manifest_with_a_utf8_pool() {
    assert_sample_fields(&fields_of(&sample(pool8(&STRINGS))));
}

#[test]
fn decoded_document_lists_strings_and_chunks() {
    let doc = decode_xml(&sample(pool16(&STRINGS))).unwrap();
    assert_eq!(doc.strings.len(), 18);
    assert_eq!(doc.strings[0], Some("manifest".to_string()));
    assert_eq!(doc.strings[17], Some("http://schemas.android.com/apk/res/android".to_string()));
    assert_eq!(doc.chunks.len(), 7);
    assert!(matches!(&doc.chunks[0], XmlChunk::ResourceMap(ids) if ids == &vec![0x0101_021b, 0x0101_021c]));
    assert!(matches!(doc.chunks[1], XmlChunk::StartNamespace { prefix: 16, uri: 17 }));
    match &doc.chunks[2] {
        XmlChunk::StartElement { namespace, name, attributes } => {
            assert_eq!(*namespace, NONE);
            assert_eq!(*name, 0);
            assert_eq!(attributes.len(), 2);
            assert_eq!(attributes[0], XmlAttribute { namespace: 17, name: 2, raw: NONE, value: AttributeValue::Integer(7) });
            assert_eq!(attributes[1], XmlAttribute { namespace: NONE, name: 1, raw: 11, value: AttributeValue::Text(11) });
        },
        other => panic!("unexpected chunk {:?}", other),
    }
    assert!(matches!(doc.chunks[4], XmlChunk::EndElement { namespace: NONE, name: 4 }));
    assert!(matches!(doc.chunks[6], XmlChunk::EndNamespace { prefix: 16, uri: 17 }));
}

#[test]
fn every_field_is_read() {
    let strings = [
        "manifest", "package", "versionCode", "versionName", "compileSdkVersion",
        "compileSdkVersionCodename", "platformBuildVersionCode", "platformBuildVersionName",
        "uses-sdk", "minSdkVersion", "targetSdkVersion", "maxSdkVersion", "application", "icon",
        "label", "org.app", "4.5", "res/i.png", "Title",
    ];
    let bytes = document(&[
        pool8(&strings),
        start_element(NONE, 0, &[
            attribute(NONE, 1, NONE, T_STRING, 15),
            attribute(NONE, 2, NONE, T_HEX, 0x10),
            attribute(NONE, 3, NONE, T_STRING, 16),
            attribute(NONE, 4, NONE, T_DEC, 34),
            attribute(NONE, 5, NONE, T_DEC, 14),
            attribute(NONE, 6, NONE, T_DEC, 35),
            attribute(NONE, 7, NONE, T_DEC, 15),
        ]),
        start_element(NONE, 8, &[
            attribute(NONE, 9, NONE, T_DEC, 19),
            attribute(NONE, 10, NONE, T_DEC, 34),
            attribute(NONE, 11, NONE, T_DEC, 36),
        ]),
        end_element(NONE, 8),
        start_element(NONE, 12, &[
            attribute(NONE, 13, NONE, T_STRING, 17),
            attribute(NONE, 14, NONE, T_STRING, 18),
        ]),
        end_element(NONE, 12),
        end_element(NONE, 0),
    ]);
    let f = fields_of(&bytes);
    assert_eq!(f.package, Some("org.app".to_string()));
    assert_eq!(f.version_code, Some(16));
    assert_eq!(f.version_name, Some("4.5".to_string()));
    assert_eq!(f.compile_sdk_version, Some(34));
    assert_eq!(f.compile_sdk_version_codename, Some(14));
    assert_eq!(f.platform_build_version_code, Some(35));
    assert_eq!(f.platform_build_version_name, Some(15));
    assert_eq!(f.min_sdk_version, Some(19));
    assert_eq!(f.target_sdk_version, Some(34));
    assert_eq!(f.max_sdk_version, Some(36));
    assert_eq!(f.icon, Some("res/i.png".to_string()));
    assert_eq!(f.label, Some("Title".to_string()));
}

#[test]
fn value_of_another_type_is_no_field() {
    let strings = ["manifest", "package", "versionCode", "application", "icon", "label", "7", "x"];
    let bytes = document(&[
        pool16(&strings),
        start_element(NONE, 0, &[
            attribute(NONE, 1, NONE, T_DEC, 5),
            attribute(NONE, 2, 6, T_STRING, 6),
        ]),
        start_element(NONE, 3, &[
            attribute(NONE, 4, NONE, T_REFERENCE, 0x7f01_0000),
            attribute(NONE, 5, NONE, T_STRING, 7),
        ]),
        end_element(NONE, 3),
        end_element(NONE, 0),
    ]);
    let f = fields_of(&bytes);
    assert_eq!(f.package, None);
    assert_eq!(f.version_code, None);
    assert_eq!(f.icon, None);
    assert_eq!(f.label, Some("x".to_string()));
}

#[test]
fn document_without_elements_has_no_fields() {
    let f = fields_of(&document(&[pool16(&STRINGS)]));
    assert_eq!(f.package, None);
    assert_eq!(f.version_code, None);
    assert_eq!(f.min_sdk_version, None);
    assert_eq!(f.label, None);
    let f = fields_of(&document(&[pool16(&[])]));
    assert_eq!(f.package, None);
}

#[test]
fn first_element_and_first_attribute_of_a_name_count() {
    let strings = ["manifest", "versionCode", "uses-sdk", "minSdkVersion"];
    let bytes = document(&[
        pool16(&strings),
        start_element(NONE, 0, &[
            attribute(NONE, 1, NONE, T_DEC, 1),
            attribute(NONE, 1, NONE, T_DEC, 2),
        ]),
        start_element(NONE, 2, &[attribute(NONE, 3, NONE, T_DEC, 10)]),
        end_element(NONE, 2),
        start_element(NONE, 2, &[attribute(NONE, 3, NONE, T_DEC, 20)]),
        end_element(NONE, 2),
        start_element(NONE, 0, &[attribute(NONE, 1, NONE, T_DEC, 3)]),
        end_element(NONE, 0),
        end_element(NONE, 0),
    ]);
    let f = fields_of(&bytes);
    assert_eq!(f.version_code, Some(1));
    assert_eq!(f.min_sdk_version, Some(10));
}

#[test]
fn attribute_of_another_element_is_not_taken() {
    let strings = ["manifest", "minSdkVersion", "uses-sdk", "package", "p"];
    let bytes = document(&[
        pool16(&strings),
        start_element(NONE, 0, &[attribute(NONE, 1, NONE, T_DEC, 21)]),
        start_element(NONE, 2, &[attribute(NONE, 3, NONE, T_STRING, 4)]),
        end_element(NONE, 2),
        end_element(NONE, 0),
    ]);
    let f = fields_of(&bytes);
    assert_eq!(f.min_sdk_version, None);
    assert_eq!(f.package, None);
}

#[test]
fn unclosed_element_is_tolerated() {
    let strings = ["manifest", "versionCode"];
    let bytes = document(&[pool16(&strings), start_element(NONE, 0, &[attribute(NONE, 1, NONE, T_DEC, 9)])]);
    assert_eq!(fields_of(&bytes).version_code, Some(9));
}

#[test]
fn long_strings_have_two_length_words() {
    let long: String = std::iter::repeat('x').take(200).collect();
    let strings = ["manifest", "package", long.as_str()];
    for pool in [pool8(&strings), pool16(&strings)] {
        let bytes = document(&[pool, start_element(NONE, 0, &[attribute(NONE, 1, NONE, T_STRING, 2)])]);
        assert_eq!(fields_of(&bytes).package, Some(long.clone()));
    }
    let longer: String = std::iter::repeat('y').take(0x8000 + 5).collect();
    let strings = ["manifest", "package", longer.as_str()];
    let bytes = document(&[pool16(&strings), start_element(NONE, 0, &[attribute(NONE, 1, NONE, T_STRING, 2)])]);
    assert_eq!(fields_of(&bytes).package, Some(longer.clone()));
    let longest: String = std::iter::repeat('z').take(0x7fff).collect();
    let strings = ["manifest", "package", longest.as_str()];
    let bytes = document(&[pool8(&strings), start_element(NONE, 0, &[attribute(NONE, 1, NONE, T_STRING, 2)])]);
    assert_eq!(fields_of(&bytes).package, Some(longest.clone()));
}

#[test]
fn text_outside_ascii_is_decoded() {
    let strings = ["manifest", "versionName", "é€😀 v1"];
    for pool in [pool8(&strings), pool16(&strings)] {
        let bytes = document(&[pool, start_element(NONE, 0, &[attribute(NONE, 1, NONE, T_STRING, 2)])]);
        assert_eq!(fields_of(&bytes).version_name, Some("é€😀 v1".to_string()));
    }
}

#[test]
fn string_that_is_not_text_is_kept_out_of_the_fields_only() {
    let bad8 = vec![1u8, 1, 0xff, 0];
    let records8 = vec![utf8_record("manifest"), utf8_record("package"), utf8_record("versionCode"), bad8];
    let pool = pool_chunk(4, 0x100, &records8);
    let bytes = document(&[pool, start_element(NONE, 0, &[
        attribute(NONE, 1, NONE, T_STRING, 3),
        attribute(NONE, 2, NONE, T_DEC, 4),
    ])]);
    let doc = decode_xml(&bytes).unwrap();
    assert_eq!(doc.strings[3], None);
    let f = project_manifest(&doc);
    assert_eq!(f.package, None);
    assert_eq!(f.version_code, Some(4));

    let mut bad16 = 1u16.to_le_bytes().to_vec();
    bad16.extend_from_slice(&0xd800u16.to_le_bytes());
    bad16.extend_from_slice(&0u16.to_le_bytes());
    let records16 = vec![utf16_record("manifest"), utf16_record("package"), bad16];
    let pool = pool_chunk(3, 0, &records16);
    let bytes = document(&[pool, start_element(NONE, 0, &[attribute(NONE, 1, NONE, T_STRING, 2)])]);
    let doc = decode_xml(&bytes).unwrap();
    assert_eq!(doc.strings[2], None);
    assert_eq!(project_manifest(&doc).package, None);
}

#[test]
fn values_by_type() {
    assert_eq!(make_value(T_STRING, 5), AttributeValue::Text(5));
    assert_eq!(make_value(T_DEC, 5), AttributeValue::Integer(5));
    assert_eq!(make_value(T_HEX, 0xffff_ffff), AttributeValue::Integer(0xffff_ffff));
    assert_eq!(make_value(T_BOOL, 0), AttributeValue::Boolean(false));
    assert_eq!(make_value(T_BOOL, 0xffff_ffff), AttributeValue::Boolean(true));
    assert_eq!(make_value(T_REFERENCE, 0x7f01_0001), AttributeValue::Reference(0x7f01_0001));
    assert_eq!(make_value(T_FLOAT, 1), AttributeValue::Other(T_FLOAT, 1));
    assert_eq!(make_value(0, 0), AttributeValue::Other(0, 0));
}

#[test]
fn character_data_is_a_chunk() {
    let strings = ["manifest", "some text"];
    let bytes = document(&[pool16(&strings), start_element(NONE, 0, &[]), cdata(1), end_element(NONE, 0)]);
    let doc = decode_xml(&bytes).unwrap();
    assert_eq!(doc.chunks.len(), 3);
    assert!(matches!(doc.chunks[1], XmlChunk::CData { text: 1 }));
    let bad = document(&[pool16(&strings), cdata(2)]);
    assert_eq!(decode_xml(&bad).err(), Some(ApkError::MalformedXml));
}

fn malformed(bytes: &[u8]) -> bool {
    decode_xml(bytes).err() == Some(ApkError::MalformedXml)
}

#[test]
fn bad_document_header_is_malformed() {
    let good = sample(pool16(&STRINGS));
    assert!(decode_xml(&good).is_ok());
    assert!(malformed(&[]));
    assert!(malformed(&good[..7]));
    let mut bad = good.clone();
    bad[0] = 4;
    assert!(malformed(&bad));
    let mut bad = good.clone();
    bad[2] = 12;
    assert!(malformed(&bad));
    let mut bad = good.clone();
    bad[4] = bad[4].wrapping_add(1);
    assert!(malformed(&bad));
    assert!(malformed(&good[..good.len() - 1]));
    assert!(malformed(&chunk(0x0003, &[], &[])));
}

#[test]
fn bytes_after_the_document_are_ignored() {
    let mut bytes = sample(pool16(&STRINGS));
    bytes.extend_from_slice(b"padding");
    assert_sample_fields(&fields_of(&bytes));
}

#[test]
fn document_must_begin_with_a_pool() {
    assert!(malformed(&document(&[start_element(NONE, 0, &[])])));
    assert!(malformed(&document(&[resource_map(&[1]), pool16(&STRINGS)])));
}

#[test]
fn second_pool_is_malformed() {
    assert!(malformed(&document(&[pool16(&STRINGS), pool16(&STRINGS)])));
}

#[test]
fn unknown_chunk_type_is_malformed() {
    assert!(malformed(&document(&[pool16(&STRINGS), node(0x0105, &[0u8; 8])])));
    assert!(malformed(&document(&[pool16(&STRINGS), node(0x0200, &[0u8; 8])])));
    assert!(malformed(&document(&[pool16(&STRINGS), chunk(0x0000, &[], &[])])));
}

#[test]
fn index_outside_the_pool_is_malformed() {
    let p = || pool16(&["manifest", "package", "value"]);
    assert!(decode_xml(&document(&[p(), start_element(NONE, 2, &[attribute(NONE, 2, 2, T_STRING, 2)])])).is_ok());
    assert!(malformed(&document(&[p(), start_element(NONE, 3, &[])])));
    assert!(malformed(&document(&[p(), start_element(NONE, NONE, &[])])));
    assert!(malformed(&document(&[p(), start_element(3, 0, &[])])));
    assert!(malformed(&document(&[p(), start_element(NONE, 0, &[attribute(NONE, 3, NONE, T_DEC, 0)])])));
    assert!(malformed(&document(&[p(), start_element(NONE, 0, &[attribute(NONE, NONE, NONE, T_DEC, 0)])])));
    assert!(malformed(&document(&[p(), start_element(NONE, 0, &[attribute(3, 1, NONE, T_DEC, 0)])])));
    assert!(malformed(&document(&[p(), start_element(NONE, 0, &[attribute(NONE, 1, 3, T_DEC, 0)])])));
    assert!(malformed(&document(&[p(), start_element(NONE, 0, &[attribute(NONE, 1, NONE, T_STRING, 3)])])));
    assert!(decode_xml(&document(&[p(), start_element(NONE, 0, &[attribute(NONE, 1, NONE, T_DEC, 3)])])).is_ok());
    assert!(malformed(&document(&[p(), end_element(NONE, 3)])));
    assert!(malformed(&document(&[p(), end_element(5, 0)])));
    assert!(malformed(&document(&[p(), two_indices(0x0100, 3, 0)])));
    assert!(malformed(&document(&[p(), two_indices(0x0101, 0, 3)])));
    assert!(decode_xml(&document(&[p(), two_indices(0x0100, NONE, 0)])).is_ok());
}

#[test]
fn attribute_cut_short_is_malformed() {
    let p = || pool16(&["manifest", "package"]);
    let mut element = start_element(NONE, 0, &[attribute(NONE, 1, NONE, T_DEC, 1)]);
    element.truncate(element.len() - 1);
    let size = element.len() as u32;
    element[4..8].copy_from_slice(&size.to_le_bytes());
    assert!(malformed(&document(&[p(), element])));

    let mut element = start_element(NONE, 0, &[attribute(NONE, 1, NONE, T_DEC, 1)]);
    element[16 + 12] = 2;
    assert!(malformed(&document(&[p(), element])));

    let mut element = start_element(NONE, 0, &[attribute(NONE, 1, NONE, T_DEC, 1)]);
    element[16 + 10] = 19;
    assert!(malformed(&document(&[p(), element])));

    let mut element = start_element(NONE, 0, &[attribute(NONE, 1, NONE, T_DEC, 1)]);
    element[16 + 8] = 21;
    assert!(malformed(&document(&[p(), element])));
}

#[test]
fn wider_attribute_records_are_stepped_over() {
    let mut a = attribute(NONE, 1, NONE, T_DEC, 5);
    a.extend_from_slice(&[0xee; 4]);
    let mut b = attribute(NONE, 2, NONE, T_DEC, 6);
    b.extend_from_slice(&[0xee; 4]);
    let mut element = start_element(NONE, 0, &[a, b]);
    element[16 + 10] = 24;
    let bytes = document(&[pool16(&["manifest", "versionCode", "compileSdkVersion"]), element]);
    let f = fields_of(&bytes);
    assert_eq!(f.version_code, Some(5));
    assert_eq!(f.compile_sdk_version, Some(6));
}

#[test]
fn chunk_that_does_not_fit_is_malformed() {
    let p = || pool16(&["manifest"]);
    let mut element = start_element(NONE, 0, &[]);
    element[4] = element[4] + 4;
    assert!(malformed(&document(&[p(), element])));
    let mut element = start_element(NONE, 0, &[]);
    element[2] = 8;
    assert!(malformed(&document(&[p(), element])));
    let mut element = end_element(NONE, 0);
    element[4] = 4;
    assert!(malformed(&document(&[p(), element])));
    let mut with_tail = document(&[p(), end_element(NONE, 0)]);
    with_tail.extend_from_slice(&[0u8; 4]);
    let size = with_tail.len() as u32;
    with_tail[4..8].copy_from_slice(&size.to_le_bytes());
    assert!(malformed(&with_tail));
}

#[test]
fn pool_that_does_not_fit_is_malformed() {
    let good = pool16(&["manifest", "package"]);
    assert!(decode_xml(&document(&[good.clone()])).is_ok());
    let mut bad = good.clone();
    bad[8] = 200;
    assert!(malformed(&document(&[bad])));
    let mut bad = good.clone();
    bad[28 + 4] = 0xf0;
    assert!(malformed(&document(&[bad])));
    let mut bad = good.clone();
    bad[20] = 0xf0;
    assert!(malformed(&document(&[bad])));
    let mut bad = good.clone();
    let first_record = 28 + 8;
    bad[first_record] = 0xff;
    assert!(malformed(&document(&[bad])));
    let mut short_header = chunk(0x0001, &[0u8; 12], &[]);
    short_header[8] = 0;
    assert!(malformed(&document(&[short_header])));
}

#[test]
fn resource_map_of_uneven_size_keeps_whole_identifiers() {
    let mut map = resource_map(&[1, 2]);
    map.extend_from_slice(&[9, 9]);
    let size = map.len() as u32;
    map[4..8].copy_from_slice(&size.to_le_bytes());
    let doc = decode_xml(&document(&[pool16(&[]), map])).unwrap();
    assert!(matches!(&doc.chunks[0], XmlChunk::ResourceMap(ids) if ids == &vec![1, 2]));
}

#[test]
fn root_of_another_name_gives_no_fields() {
    let strings = ["resources", "manifest", "package", "p", "uses-sdk", "minSdkVersion"];
    let bytes = document(&[
        pool16(&strings),
        start_element(NONE, 0, &[]),
        start_element(NONE, 1, &[attribute(NONE, 2, NONE, T_STRING, 3)]),
        start_element(NONE, 4, &[attribute(NONE, 5, NONE, T_DEC, 21)]),
        end_element(NONE, 4),
        end_element(NONE, 1),
        end_element(NONE, 0),
    ]);
    let f = fields_of(&bytes);
    assert_eq!(f.package, None);
    assert_eq!(f.min_sdk_version, None);
}

#[test]
fn only_children_of_the_root_are_read() {
    let strings = ["manifest", "application", "uses-sdk", "minSdkVersion", "label", "L", "activity"];
    let bytes = document(&[
        pool16(&strings),
        start_element(NONE, 0, &[]),
        start_element(NONE, 6, &[]),
        start_element(NONE, 1, &[attribute(NONE, 4, NONE, T_STRING, 5)]),
        start_element(NONE, 2, &[attribute(NONE, 3, NONE, T_DEC, 5)]),
        end_element(NONE, 2),
        end_element(NONE, 1),
        end_element(NONE, 6),
        start_element(NONE, 2, &[attribute(NONE, 3, NONE, T_DEC, 21)]),
        end_element(NONE, 2),
        end_element(NONE, 0),
    ]);
    let f = fields_of(&bytes);
    assert_eq!(f.min_sdk_version, Some(21));
    assert_eq!(f.label, None);
}

#[test]
fn elements_after_the_root_is_closed_are_not_read() {
    let strings = ["manifest", "uses-sdk", "minSdkVersion", "application", "label", "L"];
    let bytes = document(&[
        pool16(&strings),
        start_element(NONE, 0, &[]),
        start_element(NONE, 3, &[attribute(NONE, 4, NONE, T_STRING, 5)]),
        end_element(NONE, 3),
        end_element(NONE, 0),
        start_element(NONE, 1, &[attribute(NONE, 2, NONE, T_DEC, 21)]),
        end_element(NONE, 1),
    ]);
    let f = fields_of(&bytes);
    assert_eq!(f.label, Some("L".to_string()));
    assert_eq!(f.min_sdk_version, None);
}

#[test]
fn chunks_before_the_root_are_skipped() {
    let strings = ["manifest", "versionCode", "a", "b", "text"];
    let bytes = document(&[
        pool16(&strings),
        resource_map(&[1, 2, 3]),
        two_indices(0x0100, 2, 3),
        cdata(4),
        start_element(NONE, 0, &[attribute(NONE, 1, NONE, T_DEC, 12)]),
        end_element(NONE, 0),
        two_indices(0x0101, 2, 3),
    ]);
    assert_eq!(fields_of(&bytes).version_code, Some(12));
}

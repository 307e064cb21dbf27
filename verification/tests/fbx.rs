use threedobs::importer::fbx::{
    is_binary, load_fbx, parse_binary_fbx, parse_properties, parse_property, FbxProperty,
    FbxRecordIterator, TypeCode,
};
use threedobs::importer::ImportError;

fn header() -> Vec<u8> {
    let mut out = b"Kaydara FBX Binary  \x00".to_vec();
    out.extend_from_slice(&[0x1a, 0x00]);
    out.extend_from_slice(&7400u32.to_le_bytes());
    out
}

/// Appends a record with the given name, properties and records inside it.
fn push_record(out: &mut Vec<u8>, name: &str, count: u32, props: &[u8], children: &[(&str, u32, Vec<u8>)]) {
    let start = out.len();
    out.extend_from_slice(&[0; 4]);
    out.extend_from_slice(&count.to_le_bytes());
    out.extend_from_slice(&(props.len() as u32).to_le_bytes());
    out.push(name.len() as u8);
    out.extend_from_slice(name.as_bytes());
    out.extend_from_slice(props);
    if !children.is_empty() {
        for (n, c, p) in children {
            push_record(out, n, *c, p, &[]);
        }
        out.extend_from_slice(&[0; 13]);
    }
    let end = out.len() as u32;
    out[start..start + 4].copy_from_slice(&end.to_le_bytes());
}

fn sample_properties() -> Vec<u8> {
    let mut p = Vec::new();
    p.push(b'Y');
    p.extend_from_slice(&(-2i16).to_le_bytes());
    p.push(b'C');
    p.push(3);
    p.push(b'I');
    p.extend_from_slice(&(-70000i32).to_le_bytes());
    p.push(b'F');
    p.extend_from_slice(&1.5f32.to_le_bytes());
    p.push(b'D');
    p.extend_from_slice(&(-2.25f64).to_le_bytes());
    p.push(b'L');
    p.extend_from_slice(&i64::MIN.to_le_bytes());
    p.push(b'S');
    p.extend_from_slice(&5u32.to_le_bytes());
    p.extend_from_slice(b"hello");
    p.push(b'R');
    p.extend_from_slice(&2u32.to_le_bytes());
    p.extend_from_slice(&[9, 8]);
    p.push(b'i');
    p.extend_from_slice(&2u32.to_le_bytes());
    p.extend_from_slice(&0u32.to_le_bytes());
    p.extend_from_slice(&99u32.to_le_bytes());
    p.extend_from_slice(&[1, 0, 0, 0, 2, 0, 0, 0]);
    p.push(b'd');
    p.extend_from_slice(&1000u32.to_le_bytes());
    p.extend_from_slice(&1u32.to_le_bytes());
    p.extend_from_slice(&3u32.to_le_bytes());
    p.extend_from_slice(&[7, 7, 7]);
    p
}

#[test]
fn properties_of_each_kind() {
    let bytes = sample_properties();
    let (props, end) = parse_properties(&bytes, 0, 10).unwrap();
    assert_eq!(end, bytes.len());
    assert_eq!(props.len(), 10);
    assert!(matches!(props[0], FbxProperty::Short(-2)));
    assert!(matches!(props[1], FbxProperty::Bool(true)));
    assert!(matches!(props[2], FbxProperty::Int(-70000)));
    match props[3] {
        FbxProperty::Float(bits) => assert_eq!(f32::from_bits(bits), 1.5),
        _ => panic!("no float"),
    }
    match props[4] {
        FbxProperty::Double(bits) => assert_eq!(f64::from_bits(bits), -2.25),
        _ => panic!("no double"),
    }
    assert!(matches!(props[5], FbxProperty::Long(i64::MIN)));
    match &props[6] {
        FbxProperty::String(s) => assert_eq!(s, b"hello"),
        _ => panic!("no string"),
    }
    match &props[7] {
        FbxProperty::Raw(s) => assert_eq!(s, &vec![9, 8]),
        _ => panic!("no raw bytes"),
    }
    match &props[8] {
        FbxProperty::Array { kind, count, encoding, data } => {
            assert_eq!(*kind, TypeCode::IntArray);
            assert_eq!((*count, *encoding), (2, 0));
            assert_eq!(data, &vec![1, 0, 0, 0, 2, 0, 0, 0]);
        }
        _ => panic!("no array"),
    }
    match &props[9] {
        FbxProperty::Array { kind, count, encoding, data } => {
            assert_eq!(*kind, TypeCode::DoubleArray);
            assert_eq!((*count, *encoding), (1000, 1));
            assert_eq!(data, &vec![7, 7, 7]);
        }
        _ => panic!("no array"),
    }
    let (none, at) = parse_properties(&bytes, 3, 0).unwrap();
    assert!(none.is_empty());
    assert_eq!(at, 3);
}

#[test]
fn properties_that_fail() {
    assert_eq!(parse_property(b"", 0).unwrap_err(), ImportError::IncompleteData);
    assert_eq!(parse_property(b"Y\x01", 0).unwrap_err(), ImportError::IncompleteData);
    assert_eq!(parse_property(b"C", 0).unwrap_err(), ImportError::IncompleteData);
    assert_eq!(parse_property(b"Z\x01\x02", 0).unwrap_err(), ImportError::MalformedDocument);
    assert_eq!(parse_property(b"S\x05\0\0\0abcd", 0).unwrap_err(), ImportError::IncompleteData);
    assert_eq!(parse_property(b"R\xff\xff\xff\xff", 0).unwrap_err(), ImportError::IncompleteData);
    assert_eq!(
        parse_property(b"f\x01\0\0\0\0\0\0\0\0\0\0\0abc", 0).unwrap_err(),
        ImportError::IncompleteData
    );
    let (p, end) = parse_property(b"xxC\x02", 2).unwrap();
    assert!(matches!(p, FbxProperty::Bool(false)));
    assert_eq!(end, 4);
    let bytes = sample_properties();
    assert_eq!(parse_properties(&bytes, 0, 11).unwrap_err(), ImportError::IncompleteData);
    assert_eq!(parse_properties(&bytes, 1, 1).unwrap_err(), ImportError::MalformedDocument);
}

#[test]
fn type_bytes() {
    assert_eq!(TypeCode::from_byte(b'Y'), Some(TypeCode::Short));
    assert_eq!(TypeCode::from_byte(b'C'), Some(TypeCode::Bool));
    assert_eq!(TypeCode::from_byte(b'I'), Some(TypeCode::Int));
    assert_eq!(TypeCode::from_byte(b'F'), Some(TypeCode::Float));
    assert_eq!(TypeCode::from_byte(b'D'), Some(TypeCode::Double));
    assert_eq!(TypeCode::from_byte(b'L'), Some(TypeCode::Long));
    assert_eq!(TypeCode::from_byte(b'f'), Some(TypeCode::FloatArray));
    assert_eq!(TypeCode::from_byte(b'd'), Some(TypeCode::DoubleArray));
    assert_eq!(TypeCode::from_byte(b'l'), Some(TypeCode::LongArray));
    assert_eq!(TypeCode::from_byte(b'i'), Some(TypeCode::IntArray));
    assert_eq!(TypeCode::from_byte(b'b'), Some(TypeCode::BoolArray));
    assert_eq!(TypeCode::from_byte(b'S'), Some(TypeCode::String));
    assert_eq!(TypeCode::from_byte(b'R'), Some(TypeCode::Raw));
    assert_eq!(TypeCode::from_byte(b'y'), None);
    assert_eq!(TypeCode::from_byte(0), None);
}

fn sample_file() -> Vec<u8> {
    let mut file = header();
    let mut one = Vec::new();
    one.push(b'I');
    one.extend_from_slice(&7i32.to_le_bytes());
    push_record(&mut file, "Header", 1, &one, &[("Inner", 0, Vec::new()), ("Second", 1, one.clone())]);
    push_record(&mut file, "Objects", 0, &[], &[]);
    file.extend_from_slice(&[0; 13]);
    file.extend_from_slice(b"footer that is not read");
    file
}

#[test]
fn records_in_file_order_with_their_depth() {
    let file = sample_file();
    let records = parse_binary_fbx(&file).unwrap();
    let seen: Vec<(String, usize, usize)> = records
        .iter()
        .map(|r| (String::from_utf8(r.name.clone()).unwrap(), r.depth, r.properties.len()))
        .collect();
    assert_eq!(
        seen,
        vec![
            ("Header".to_string(), 0, 1),
            ("Inner".to_string(), 1, 0),
            ("Second".to_string(), 1, 1),
            ("Objects".to_string(), 0, 0),
        ]
    );
    assert!(matches!(records[2].properties[0], FbxProperty::Int(7)));
    assert_eq!(records[3].end_offset as usize, file.len() - 13 - 23);
    assert_eq!(load_fbx(&file).unwrap().len(), 4);
}

#[test]
fn records_one_by_one() {
    let file = sample_file();
    let mut iter = FbxRecordIterator::new();
    let mut names = Vec::new();
    while let Some(r) = iter.next(&file).unwrap() {
        names.push(r.name);
    }
    assert_eq!(names.len(), 4);
    assert_eq!(names[1], b"Inner".to_vec());
}

#[test]
fn files_that_fail() {
    let file = sample_file();
    assert_eq!(parse_binary_fbx(&file[..27]).unwrap_err(), ImportError::IncompleteData);
    assert_eq!(parse_binary_fbx(&file[..10]).unwrap_err(), ImportError::IncompleteData);
    assert_eq!(parse_binary_fbx(&file[..42]).unwrap_err(), ImportError::IncompleteData);
    assert_eq!(
        parse_binary_fbx(&file[..file.len() - 13 - 23]).unwrap_err(),
        ImportError::IncompleteData
    );
    let mut bad = header();
    push_record(&mut bad, "X", 1, b"?", &[]);
    assert_eq!(parse_binary_fbx(&bad).unwrap_err(), ImportError::MalformedDocument);
    assert_eq!(load_fbx(b"; FBX 7.4.0 project file").unwrap_err(), ImportError::UnsupportedFormat);
    assert_eq!(load_fbx(b"").unwrap_err(), ImportError::UnsupportedFormat);
    let mut only_end = header();
    only_end.extend_from_slice(&[0; 13]);
    assert!(parse_binary_fbx(&only_end).unwrap().is_empty());
}

#[test]
fn magic_bytes() {
    assert!(is_binary(b"Kaydara FBX Binary  \x00"));
    assert!(!is_binary(b"Kaydara FBX Binary  \x01"));
    assert!(!is_binary(b"Kaydara FBX Binary  "));
    assert!(!is_binary(b""));
    assert!(is_binary(&header()[..21]));
}

use vox_format::reader::Error;
use vox_format::scene::{read_id_opt, vector_of_parts};
use vox_format::stream::{ByteReader, IoError};
use vox_format::types::{Attributes, Group, Layer, Shape, Transform, Vector};

fn le(n: u32) -> Vec<u8> {
    n.to_le_bytes().to_vec()
}

fn string(s: &[u8]) -> Vec<u8> {
    let mut bytes = le(s.len() as u32);
    bytes.extend_from_slice(s);
    bytes
}

fn attributes(pairs: &[(&str, &str)]) -> Vec<u8> {
    let mut bytes = le(pairs.len() as u32);
    for (key, value) in pairs {
        bytes.extend(string(key.as_bytes()));
        bytes.extend(string(value.as_bytes()));
    }
    bytes
}

fn entries(attributes: &Attributes) -> Vec<(String, String)> {
    let mut walk = attributes.iter();
    let mut seen = vec![];
    while let Some((key, value)) = walk.next() {
        seen.push((key.to_string(), value.to_string()));
    }
    seen.sort();
    seen
}

#[test]
fn attributes_are_values_by_key() {
    let bytes = attributes(&[("_name", "tree"), ("_t", "1 2 3"), ("ä", "ö")]);
    let mut reader = ByteReader::new(&bytes);
    let read = Attributes::read(&mut reader).unwrap();
    assert_eq!(reader.stream_position(), bytes.len() as u64);
    assert_eq!(read.get("_name"), Some("tree"));
    assert_eq!(read.get("_t"), Some("1 2 3"));
    assert_eq!(read.get("ä"), Some("ö"));
    assert_eq!(read.get("_n"), None);
    assert_eq!(read.get(""), None);
    assert_eq!(
        entries(&read),
        vec![
            ("_name".to_string(), "tree".to_string()),
            ("_t".to_string(), "1 2 3".to_string()),
            ("ä".to_string(), "ö".to_string()),
        ]
    );
}

#[test]
fn the_last_value_of_a_key_stands() {
    let bytes = attributes(&[("a", "1"), ("b", "2"), ("a", "3"), ("", "x"), ("a", "4")]);
    let read = Attributes::read(&mut ByteReader::new(&bytes)).unwrap();
    assert_eq!(read.get("a"), Some("4"));
    assert_eq!(read.get("b"), Some("2"));
    assert_eq!(read.get(""), Some("x"));
    assert_eq!(entries(&read).len(), 3);
}

#[test]
fn no_attributes_are_no_entries() {
    assert_eq!(Attributes::default().get("a"), None);
    assert!(Attributes::default().iter().next().is_none());
    let read = Attributes::read(&mut ByteReader::new(&le(0))).unwrap();
    assert!(entries(&read).is_empty());
}

#[test]
fn attributes_that_are_cut_off_or_not_utf8_are_refused() {
    let bytes = attributes(&[("a", "1"), ("b", "2")]);
    for cut in 0..bytes.len() {
        assert!(matches!(
            Attributes::read(&mut ByteReader::new(&bytes[..cut])),
            Err(Error::Io(IoError::UnexpectedEof))
        ));
    }
    let mut bytes = le(1);
    bytes.extend(string(&[0xff, 0xfe]));
    bytes.extend(string(b"v"));
    assert!(matches!(Attributes::read(&mut ByteReader::new(&bytes)), Err(Error::Utf8)));
    let mut bytes = le(1);
    bytes.extend(string(b"k"));
    bytes.extend(string(&[0xc3]));
    assert!(matches!(Attributes::read(&mut ByteReader::new(&bytes)), Err(Error::Utf8)));
}

#[test]
fn an_identifier_is_absent_where_it_is_negative() {
    let bytes = [le(7), le(u32::MAX), le(0x7fff_ffff), le(0x8000_0000), le(0)].concat();
    let mut reader = ByteReader::new(&bytes);
    assert_eq!(read_id_opt(&mut reader).unwrap(), Some(7));
    assert_eq!(read_id_opt(&mut reader).unwrap(), None);
    assert_eq!(read_id_opt(&mut reader).unwrap(), Some(0x7fff_ffff));
    assert_eq!(read_id_opt(&mut reader).unwrap(), None);
    assert_eq!(read_id_opt(&mut reader).unwrap(), Some(0));
    assert!(read_id_opt(&mut reader).is_err());
}

fn transform(frames: &[&[(&str, &str)]]) -> Vec<u8> {
    let mut bytes = le(12);
    bytes.extend(attributes(&[("_name", "root")]));
    bytes.extend(le(13));
    bytes.extend(le(u32::MAX));
    bytes.extend(le(2));
    bytes.extend(le(frames.len() as u32));
    for frame in frames {
        bytes.extend(attributes(frame));
    }
    bytes
}

#[test]
fn a_transform_node_holds_its_frames() {
    let bytes = transform(&[&[("_t", "1 -2 3")], &[], &[("_r", "4"), ("_t", " 10\t20\n30 ")]]);
    let mut reader = ByteReader::new(&bytes);
    let node = Transform::read(&mut reader).unwrap();
    assert_eq!(reader.stream_position(), bytes.len() as u64);
    assert_eq!(node.node_id, 12);
    assert_eq!(node.attributes.get("_name"), Some("root"));
    assert_eq!(node.child_node_id, 13);
    assert_eq!(node.reserved_id, None);
    assert_eq!(node.layer_id, Some(2));
    assert_eq!(node.frames.len(), 3);
    assert_eq!(node.get_transform(0), Some(Vector::new(1, -2, 3)));
    assert_eq!(node.get_transform(1), None);
    assert_eq!(node.get_transform(2), Some(Vector::new(10, 20, 30)));
    assert_eq!(node.get_transform(3), None);
    assert!(Transform::read(&mut ByteReader::new(&bytes[..bytes.len() - 1])).is_err());
}

#[test]
fn a_translation_is_three_numbers() {
    let values = ["1 2", "1 2 3 4", "1 2 x", "", "1.5 2 3", "1 2 99999999999", "+1 -0 2147483647"];
    let frames: Vec<Vec<(&str, &str)>> = values.iter().map(|v| vec![("_t", *v)]).collect();
    let frames: Vec<&[(&str, &str)]> = frames.iter().map(|f| f.as_slice()).collect();
    let bytes = transform(&frames);
    let node = Transform::read(&mut ByteReader::new(&bytes)).unwrap();
    for i in 0..6 {
        assert_eq!(node.get_transform(i), None);
    }
    assert_eq!(node.get_transform(6), Some(Vector::new(1, 0, 2147483647)));
}

#[test]
fn a_vector_needs_exactly_three_numbers() {
    assert_eq!(vector_of_parts(&vec![Some(1), Some(2), Some(3)]), Some(Vector::new(1, 2, 3)));
    assert_eq!(vector_of_parts(&vec![Some(1), Some(2)]), None);
    assert_eq!(vector_of_parts(&vec![Some(1), Some(2), Some(3), Some(4)]), None);
    assert_eq!(vector_of_parts(&vec![Some(1), None, Some(3)]), None);
    assert_eq!(vector_of_parts(&vec![None, Some(2), Some(3)]), None);
    assert_eq!(vector_of_parts(&vec![Some(1), Some(2), None]), None);
    assert_eq!(vector_of_parts(&vec![]), None);
}

#[test]
fn a_group_node_holds_its_children() {
    let mut bytes = le(5);
    bytes.extend(attributes(&[("k", "v")]));
    bytes.extend(le(3));
    bytes.extend([le(10), le(11), le(12)].concat());
    let mut reader = ByteReader::new(&bytes);
    let node = Group::read(&mut reader).unwrap();
    assert_eq!(node.node_id, 5);
    assert_eq!(node.attributes.get("k"), Some("v"));
    assert_eq!(node.children, vec![10, 11, 12]);
    assert_eq!(reader.stream_position(), bytes.len() as u64);
    assert!(matches!(
        Group::read(&mut ByteReader::new(&bytes[..bytes.len() - 2])),
        Err(Error::Io(IoError::UnexpectedEof))
    ));
}

#[test]
fn shape_and_layer_nodes_hold_their_attributes() {
    let mut bytes = le(8);
    bytes.extend(attributes(&[("_hidden", "1")]));
    bytes.extend(le(u32::MAX));
    let mut reader = ByteReader::new(&bytes);
    let shape = Shape::read(&mut reader).unwrap();
    assert_eq!(shape.node_id, 8);
    assert_eq!(shape.attributes.get("_hidden"), Some("1"));
    assert_eq!(reader.stream_position(), bytes.len() as u64 - 4);
    let layer = Layer::read(&mut ByteReader::new(&bytes)).unwrap();
    assert_eq!(layer.node_id, 8);
    assert_eq!(layer.attributes.get("_hidden"), Some("1"));
    assert_eq!(layer.reserved_id, None);
    assert!(Layer::read(&mut ByteReader::new(&bytes[..bytes.len() - 1])).is_err());
}

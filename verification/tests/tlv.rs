use matter_clusters::tlv::{
    octets_at, put_array, put_bool, put_null, put_octets, put_optional, put_signed, put_structure, put_text, put_unsigned, read_element,
    read_items, text_at, ContainerKind, Element, Tag, TlvWriter, Value,
};

fn unsigned(tag: Tag, v: u64) -> Vec<u8> {
    let mut out = Vec::new();
    put_unsigned(&mut out, tag, v);
    out
}

fn signed(tag: Tag, v: i64) -> Vec<u8> {
    let mut out = Vec::new();
    put_signed(&mut out, tag, v);
    out
}

#[test]
fn a_number_takes_the_least_octets() {
    assert_eq!(unsigned(Tag::Anonymous, 255), [0x04, 255]);
    assert_eq!(unsigned(Tag::Context(3), 256), [0x25, 3, 0x00, 0x01]);
    assert_eq!(unsigned(Tag::Anonymous, 0x1_0000), [0x06, 0, 0, 1, 0]);
    assert_eq!(unsigned(Tag::Anonymous, 0x1_0000_0000), [0x07, 0, 0, 0, 0, 1, 0, 0, 0]);
    assert_eq!(signed(Tag::Anonymous, -128), [0x00, 0x80]);
    assert_eq!(signed(Tag::Anonymous, 128), [0x01, 0x80, 0x00]);
    assert_eq!(signed(Tag::Context(1), -32_769), [0x22, 1, 0xFF, 0x7F, 0xFF, 0xFF]);
    assert_eq!(signed(Tag::Anonymous, i64::MIN), [0x03, 0, 0, 0, 0, 0, 0, 0, 0x80]);
}

#[test]
fn every_width_is_read_back() {
    for v in [0, 1, 255, 256, 0xFFFF, 0x1_0000, u64::from(u32::MAX), 0x1_0000_0000, u64::MAX] {
        let bytes = unsigned(Tag::Context(9), v);
        assert_eq!(read_element(&bytes, 0), Some((Element { context: Some(9), value: Value::Unsigned(v) }, bytes.len())));
    }
    for v in [0, -1, 127, 128, -128, -129, 32_767, 32_768, i64::from(i32::MIN), i64::from(i32::MIN) - 1, i64::MAX, i64::MIN] {
        let bytes = signed(Tag::Anonymous, v);
        assert_eq!(read_element(&bytes, 0), Some((Element { context: None, value: Value::Signed(v) }, bytes.len())));
    }
    let mut bytes = Vec::new();
    put_bool(&mut bytes, Tag::Context(0), true);
    put_null(&mut bytes, Tag::Anonymous);
    assert_eq!(bytes, [0x29, 0, 0x14]);
    assert_eq!(read_element(&bytes, 0), Some((Element { context: Some(0), value: Value::Bool(true) }, 2)));
    assert_eq!(read_element(&bytes, 2), Some((Element { context: None, value: Value::Null }, 3)));
    assert_eq!(read_element(&bytes, 3), None);
    let mut none = Vec::new();
    put_optional(&mut none, Tag::Context(0), None);
    assert!(none.is_empty());
}

#[test]
fn texts_and_octets_are_found_where_they_stand() {
    let mut bytes = Vec::new();
    put_text(&mut bytes, Tag::Context(1), "h\u{e9}");
    assert_eq!(bytes, [0x2C, 1, 3, b'h', 0xC3, 0xA9]);
    let (e, next) = read_element(&bytes, 0).expect("an element");
    assert_eq!((text_at(&bytes, &e), next), (Some("h\u{e9}"), 6));
    assert_eq!(octets_at(&bytes, &e), None);
    // What is no text is none.
    assert_eq!(read_element(&[0x0C, 1, 0xFF], 0), None);
    let mut long = Vec::new();
    put_octets(&mut long, Tag::Anonymous, &[7; 300]);
    assert_eq!(long[..3], [0x11, 0x2C, 0x01]);
    let (e, next) = read_element(&long, 0).expect("an element");
    assert_eq!(octets_at(&long, &e), Some(&[7u8; 300][..]));
    assert_eq!(next, 303);
    assert_eq!(text_at(&long, &e), None);
}

#[test]
fn containers_hold_their_own() {
    let mut inner = Vec::new();
    put_unsigned(&mut inner, Tag::Anonymous, 1);
    put_unsigned(&mut inner, Tag::Anonymous, 2);
    let mut fields = Vec::new();
    put_array(&mut fields, Tag::Context(0), &inner);
    put_bool(&mut fields, Tag::Context(1), false);
    let mut bytes = Vec::new();
    put_structure(&mut bytes, Tag::Anonymous, &fields);
    assert_eq!(bytes, [0x15, 0x36, 0, 0x04, 1, 0x04, 2, 0x18, 0x28, 1, 0x18]);
    let (e, next) = read_element(&bytes, 0).expect("an element");
    assert_eq!((e.value, next), (Value::Container(ContainerKind::Structure, 1), 1));
    let items = read_items(&bytes, 1);
    assert!(items.complete);
    // What the array holds is not among the fields.
    assert_eq!(
        items.items,
        [
            Element { context: Some(0), value: Value::Container(ContainerKind::Array, 3) },
            Element { context: Some(1), value: Value::Bool(false) },
        ]
    );
    let items = read_items(&bytes, 3);
    assert_eq!(items.items.len(), 2);
    assert!(!read_items(&bytes[..bytes.len() - 1], 1).complete);
    assert!(!read_items(&[0x15, 0x36, 0, 0x04, 1], 1).complete);
}

#[test]
fn torn_and_unknown_elements_are_none() {
    for bytes in [
        vec![], vec![0x04], vec![0x25, 0], vec![0x25, 0, 1], vec![0x2C, 0], vec![0x2C, 0, 2, b'a'], vec![0x1F], vec![0x26, 0, 1, 2, 3],
        vec![0x0D, 5], vec![0x0F, 0xFF, 0xFF, 0xFF, 0xFF, 0xFF, 0xFF, 0xFF, 0xFF],
    ] {
        assert_eq!(read_element(&bytes, 0), None, "{:?}", bytes);
    }
    // A float is skipped over.
    let float = [0x0A, 0, 0, 0, 0];
    assert_eq!(read_element(&float, 0), Some((Element { context: None, value: Value::Float }, 5)));
    assert_eq!(read_element(&[0x18], 0), Some((Element { context: None, value: Value::EndOfContainer }, 1)));
}

#[test]
fn a_writer_takes_whole_pieces() {
    let mut w = TlvWriter::new(4);
    assert!(w.append(&[1, 2, 3]));
    assert!(!w.append(&[4, 5]));
    assert!(w.append(&[4]));
    assert_eq!(w.finish(), [1, 2, 3, 4]);
}

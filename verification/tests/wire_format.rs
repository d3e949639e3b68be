use nearclip_protocol::wire::{
    read_field, read_packed, read_varint, write_bytes_field, write_key, write_packed_field, write_varint,
    write_varint_field, FieldValue,
};

#[test]
fn varint_write_and_read_back() {
    for v in [0u64, 1, 127, 128, 300, 16_383, 16_384, u32::MAX as u64, u64::MAX] {
        let mut buf = vec![0xee];
        write_varint(&mut buf, v);
        buf.push(0x55);
        let (got, next) = read_varint(&buf, 1).unwrap();
        assert_eq!(got, v);
        assert_eq!(buf[next], 0x55);
    }
}

#[test]
fn varint_exact_bytes() {
    let mut buf = Vec::new();
    write_varint(&mut buf, 300);
    assert_eq!(buf, vec![0xac, 0x02]);
    let mut buf = Vec::new();
    write_varint(&mut buf, u64::MAX);
    assert_eq!(buf.len(), 10);
    assert_eq!(buf[9], 0x01);
}

#[test]
fn varint_read_failures() {
    assert!(read_varint(&[], 0).is_none());
    assert!(read_varint(&[0x80, 0x80], 0).is_none());
    assert_eq!(
        read_varint(&[0xff, 0xff, 0xff, 0xff, 0xff, 0xff, 0xff, 0xff, 0xff, 0x02], 0),
        Some((0x7fff_ffff_ffff_ffff, 10))
    );
    let mut eleven = vec![0x80; 10];
    eleven.push(0x00);
    assert!(read_varint(&eleven, 0).is_none());
    assert_eq!(read_varint(&[0x80, 0x00], 0), Some((0, 2)));
}

#[test]
fn field_reader_gives_number_value_and_next_position() {
    let data = [0x08, 0x96, 0x01, 0x12, 2, b'h', b'i', 0x1d, 1, 2, 3, 4, 0x21, 0, 0, 0, 0, 0, 0, 0, 0];
    match read_field(&data, 0, 100) {
        Some((1, FieldValue::Varint(150), 3)) => {},
        _ => panic!("varint field"),
    }
    match read_field(&data, 3, 100) {
        Some((2, FieldValue::Delimited(5, 7), 7)) => {},
        _ => panic!("delimited field"),
    }
    match read_field(&data, 7, 100) {
        Some((3, FieldValue::Fixed, 12)) => {},
        _ => panic!("fixed32 field"),
    }
    match read_field(&data, 12, 100) {
        Some((4, FieldValue::Fixed, 21)) => {},
        _ => panic!("fixed64 field"),
    }
    assert!(read_field(&data, 21, 100).is_none());
    match read_field(&[0x2b, 0x08, 0x01, 0x2c, 0xff], 0, 100) {
        Some((5, FieldValue::Group, 4)) => {},
        _ => panic!("group field"),
    }
}

#[test]
fn field_reader_refusals() {
    assert!(read_field(&[0x03], 0, 100).is_none());
    assert!(read_field(&[0x04], 0, 100).is_none());
    assert!(read_field(&[0x07], 0, 100).is_none());
    assert!(read_field(&[0x02, 0], 0, 100).is_none());
    assert!(read_field(&[0x12, 3, 1, 2], 0, 100).is_none());
    assert!(read_field(&[0x80, 0x80, 0x80, 0x80, 0x10, 0], 0, 100).is_none());
    assert!(read_field(&[0x88, 0x80, 0x80, 0x80, 0x80, 0x00, 1], 0, 100).is_none());
}

#[test]
fn write_helpers_produce_keys_and_skip_defaults() {
    let mut buf = Vec::new();
    write_key(&mut buf, 16, 2);
    assert_eq!(buf, vec![0x82, 0x01]);
    let mut buf = Vec::new();
    write_varint_field(&mut buf, 3, 0);
    write_bytes_field(&mut buf, 4, &[]);
    assert!(buf.is_empty());
    write_varint_field(&mut buf, 3, 1);
    write_bytes_field(&mut buf, 4, &[7]);
    assert_eq!(buf, vec![0x18, 1, 0x22, 1, 7]);
}

#[test]
fn packed_values_roundtrip() {
    let mut buf = Vec::new();
    write_packed_field(&mut buf, 4, &[1, -1, 300]);
    assert_eq!(buf[0], 0x22);
    let len = buf[1] as usize;
    assert_eq!(len, 1 + 10 + 2);
    assert_eq!(read_packed(&buf[2..]), Some(vec![1, -1, 300]));
    let mut empty = Vec::new();
    write_packed_field(&mut empty, 4, &[]);
    assert!(empty.is_empty());
    assert_eq!(read_packed(&[]), Some(vec![]));
    assert_eq!(read_packed(&[0x80]), None);
}

#[test]
fn field_reader_spends_a_level_of_nesting_on_each_group() {
    assert!(read_field(&[0x2b, 0x2c], 0, 0).is_none());
    match read_field(&[0x2b, 0x2c], 0, 1) {
        Some((5, FieldValue::Group, 2)) => {},
        _ => panic!("one group"),
    }
    assert!(read_field(&[0x2b, 0x0b, 0x0c, 0x2c], 0, 1).is_none());
    match read_field(&[0x2b, 0x0b, 0x0c, 0x2c], 0, 2) {
        Some((5, FieldValue::Group, 4)) => {},
        _ => panic!("two groups"),
    }
}

use nearclip_protocol::discovery::{
    DeviceBroadcast, DeviceBroadcastView, DeviceCapability, DeviceQuery, DeviceQueryResponse, DeviceType,
    MetadataMap, ScanRequest, ScanResponse,
};

fn broadcast(device_id: &str, device_type: DeviceType) -> DeviceBroadcast {
    let mut b = DeviceBroadcast::new();
    b.set_device_id(device_id);
    b.set_device_type(device_type);
    b
}

#[test]
fn device_broadcast_encoding() {
    let mut b = broadcast("id", DeviceType::Mac());
    b.set_device_name("n");
    b.set_capabilities(vec![DeviceCapability::CapabilityClipboardRead(), DeviceCapability::CapabilityClipboardWrite()]);
    b.set_version("1");
    b.set_timestamp(5);
    b.set_public_key(&[0xaa, 0xbb]);
    b.metadata_mut().insert("k", "v");
    let bytes = b.serialize().unwrap();
    let expected: Vec<u8> = vec![
        0x0a, 2, b'i', b'd', 0x12, 1, b'n', 0x18, 2, 0x22, 2, 1, 2, 0x2a, 1, b'1', 0x30, 5, 0x3a, 2, 0xaa, 0xbb,
        0x42, 6, 0x0a, 1, b'k', 0x12, 1, b'v',
    ];
    assert_eq!(bytes, expected);
    let back = DeviceBroadcast::parse(&bytes).unwrap();
    assert_eq!(back.device_id(), "id");
    assert_eq!(back.device_name(), "n");
    assert_eq!(back.device_type(), DeviceType::Mac());
    assert_eq!(back.capabilities(), &[DeviceCapability(1), DeviceCapability(2)][..]);
    assert_eq!(back.version(), "1");
    assert_eq!(back.timestamp(), 5);
    assert_eq!(back.public_key(), &[0xaa, 0xbb][..]);
    assert_eq!(back.metadata().get("k"), Some("v"));
    assert_eq!(back.serialize().unwrap(), expected);
}

#[test]
fn repeated_enum_is_read_packed_or_unpacked() {
    let packed = DeviceBroadcast::parse(&[0x22, 3, 1, 2, 4]).unwrap();
    let unpacked = DeviceBroadcast::parse(&[0x20, 1, 0x20, 2, 0x20, 4]).unwrap();
    assert_eq!(packed.capabilities(), unpacked.capabilities());
    assert_eq!(packed.capabilities().len(), 3);
    let mixed = DeviceBroadcast::parse(&[0x20, 3, 0x22, 1, 0]).unwrap();
    assert_eq!(mixed.capabilities(), &[DeviceCapability(3), DeviceCapability(0)][..]);
}

#[test]
fn malformed_packed_payload_is_refused() {
    assert!(DeviceBroadcast::parse(&[0x22, 1, 0x80]).is_err());
    assert!(DeviceBroadcast::parse(&[0x22, 2, 1]).is_err());
}

#[test]
fn empty_repeated_enum_is_not_written() {
    let b = DeviceBroadcast::new();
    assert_eq!(b.serialize().unwrap(), Vec::<u8>::new());
    assert!(DeviceBroadcast::parse(&[0x22, 0]).unwrap().capabilities().is_empty());
}

#[test]
fn metadata_map_insert_get_remove() {
    let mut m = MetadataMap::new();
    assert!(m.is_empty());
    assert!(m.insert("a", "1"));
    assert!(m.insert("b", "2"));
    assert!(!m.insert("a", "3"));
    assert_eq!(m.len(), 2);
    assert_eq!(m.get("a"), Some("3"));
    assert_eq!(m.get("b"), Some("2"));
    assert_eq!(m.get("c"), None);
    assert_eq!(m.entries()[0].0, "a");
    assert!(m.remove("a"));
    assert!(!m.remove("a"));
    assert_eq!(m.get("a"), None);
    assert_eq!(m.len(), 1);
    m.clear();
    assert!(m.is_empty());
}

#[test]
fn metadata_insert_all_overwrites_and_appends() {
    let mut a = MetadataMap::new();
    a.insert("x", "1");
    a.insert("y", "2");
    let mut b = MetadataMap::new();
    b.insert("y", "20");
    b.insert("z", "30");
    a.insert_all(&b);
    assert_eq!(a.len(), 3);
    assert_eq!(a.get("x"), Some("1"));
    assert_eq!(a.get("y"), Some("20"));
    assert_eq!(a.get("z"), Some("30"));
    assert_eq!(a.entries()[2].0, "z");
}

#[test]
fn duplicate_map_keys_on_the_wire_keep_the_last_value() {
    let data = [0x42, 6, 0x0a, 1, b'k', 0x12, 1, b'1', 0x42, 6, 0x0a, 1, b'k', 0x12, 1, b'2'];
    let b = DeviceBroadcast::parse(&data).unwrap();
    assert_eq!(b.metadata().len(), 1);
    assert_eq!(b.metadata().get("k"), Some("2"));
}

#[test]
fn map_entry_without_value_reads_as_empty_value() {
    let b = DeviceBroadcast::parse(&[0x42, 3, 0x0a, 1, b'k']).unwrap();
    assert_eq!(b.metadata().get("k"), Some(""));
    let b = DeviceBroadcast::parse(&[0x42, 0]).unwrap();
    assert_eq!(b.metadata().get(""), Some(""));
}

#[test]
fn map_entry_with_invalid_utf8_is_refused() {
    assert!(DeviceBroadcast::parse(&[0x42, 3, 0x0a, 1, 0xff]).is_err());
}

#[test]
fn device_broadcast_merge_appends_and_inserts() {
    let mut a = broadcast("a", DeviceType::Android());
    a.set_capabilities(vec![DeviceCapability::CapabilityEncryption()]);
    a.metadata_mut().insert("k", "1");
    let mut b = broadcast("", DeviceType::Unknown());
    b.set_capabilities(vec![DeviceCapability::CapabilityFileTransfer()]);
    b.metadata_mut().insert("k", "2");
    b.metadata_mut().insert("j", "3");
    let mut data = a.serialize().unwrap();
    data.extend_from_slice(&b.serialize().unwrap());
    let parsed = DeviceBroadcast::parse(&data).unwrap();
    a.merge_from(b.as_view());
    assert_eq!(parsed.serialize().unwrap(), a.serialize().unwrap());
    assert_eq!(a.device_id(), "a");
    assert_eq!(a.device_type(), DeviceType::Android());
    assert_eq!(a.capabilities(), &[DeviceCapability(4), DeviceCapability(3)][..]);
    assert_eq!(a.metadata().get("k"), Some("2"));
    assert_eq!(a.metadata().len(), 2);
}

#[test]
fn device_broadcast_view_reads_metadata() {
    let mut b = broadcast("v", DeviceType::Ios());
    b.metadata_mut().insert("os", "17");
    let v = b.as_view();
    assert_eq!(v.device_type(), DeviceType::Ios());
    assert_eq!(v.metadata().get("os"), Some("17"));
    assert_eq!(v.metadata().len(), 1);
    let d = DeviceBroadcastView::default();
    assert!(d.metadata().is_empty());
    assert!(d.capabilities().is_empty());
    assert!(d.public_key().is_empty());
}

#[test]
fn device_type_and_capability_names() {
    assert_eq!(DeviceType::Windows().constant_name(), Some("Windows"));
    assert_eq!(DeviceType(5).constant_name(), None);
    assert!(DeviceType::is_known(4));
    assert!(!DeviceType::is_known(5));
    assert_eq!(DeviceCapability::CapabilityUnknown().constant_name(), Some("CapabilityUnknown"));
    assert_eq!(i32::from(DeviceCapability::CapabilityEncryption()), 4);
    assert_eq!(DeviceType::from(2), DeviceType::Mac());
    assert_eq!(DeviceType::default(), DeviceType::Unknown());
}

#[test]
fn enum_lists_convert_to_and_from_numbers() {
    let caps = vec![DeviceCapability(1), DeviceCapability(7)];
    assert_eq!(DeviceCapability::values_of(&caps), vec![1, 7]);
    let mut list = vec![DeviceType::Mac()];
    DeviceType::extend_from_values(&mut list, &[1, -3]);
    assert_eq!(list, vec![DeviceType(2), DeviceType(1), DeviceType(-3)]);
}

#[test]
fn scan_request_roundtrip() {
    let mut r = ScanRequest::new();
    r.set_timeout_seconds(30);
    r.set_filter_types(vec![DeviceType::Android(), DeviceType::Ios()]);
    r.required_capabilities_mut().push(DeviceCapability::CapabilityClipboardRead());
    let bytes = r.serialize().unwrap();
    assert_eq!(bytes, vec![0x08, 30, 0x12, 2, 1, 4, 0x1a, 1, 1]);
    let back = ScanRequest::parse(&bytes).unwrap();
    assert_eq!(back.timeout_seconds(), 30);
    assert_eq!(back.filter_types(), &[DeviceType(1), DeviceType(4)][..]);
    assert_eq!(back.required_capabilities(), &[DeviceCapability(1)][..]);
}

#[test]
fn scan_response_devices_in_order() {
    let mut r = ScanResponse::new();
    r.devices_mut().push(broadcast("a", DeviceType::Mac()));
    r.devices_mut().push(DeviceBroadcast::new());
    r.set_scan_duration_ms(1000);
    let bytes = r.serialize().unwrap();
    assert_eq!(bytes, vec![0x0a, 5, 0x0a, 1, b'a', 0x18, 2, 0x0a, 0, 0x10, 0xe8, 0x07]);
    let back = ScanResponse::parse(&bytes).unwrap();
    assert_eq!(back.devices().len(), 2);
    assert_eq!(back.devices()[0].device_id(), "a");
    assert_eq!(back.devices()[1].device_id(), "");
    assert_eq!(back.scan_duration_ms(), 1000);
    let mut merged = back.clone();
    merged.merge_from(back.as_view());
    assert_eq!(merged.devices().len(), 4);
}

#[test]
fn scan_response_with_bad_device_is_refused() {
    assert!(ScanResponse::parse(&[0x0a, 2, 0x0a, 5]).is_err());
}

#[test]
fn device_query_roundtrip() {
    let mut q = DeviceQuery::new();
    q.set_device_id("q");
    q.set_capabilities(vec![DeviceCapability(2)]);
    let bytes = q.serialize().unwrap();
    assert_eq!(bytes, vec![0x0a, 1, b'q', 0x12, 1, 2]);
    let back = DeviceQuery::parse(&bytes).unwrap();
    assert_eq!(back.device_id(), "q");
    assert_eq!(back.capabilities(), &[DeviceCapability(2)][..]);
}

#[test]
fn device_query_response_sub_message() {
    let mut r = DeviceQueryResponse::new();
    assert!(!r.has_device());
    r.set_is_online(true);
    r.set_last_seen(9);
    {
        let mut d = r.device_mut();
        d.set_device_id("x");
    }
    assert!(r.has_device());
    let bytes = r.serialize().unwrap();
    assert_eq!(bytes, vec![0x0a, 3, 0x0a, 1, b'x', 0x10, 1, 0x18, 9]);
    let back = DeviceQueryResponse::parse(&bytes).unwrap();
    assert_eq!(back.device().device_id(), "x");
    assert!(back.is_online());
    assert_eq!(back.last_seen(), 9);
    let mut cleared = back.clone();
    cleared.clear_device();
    assert!(cleared.device_opt().is_none());
    assert_eq!(cleared.device().device_id(), "");
}

#[test]
fn map_and_repeated_writes_through_the_mut_handle() {
    let mut b = DeviceBroadcast::new();
    {
        let mut h = b.as_mut();
        h.metadata_mut().insert("a", "b");
        h.capabilities_mut().push(DeviceCapability::CapabilityFileTransfer());
    }
    assert_eq!(b.metadata().get("a"), Some("b"));
    assert_eq!(b.capabilities(), &[DeviceCapability(3)][..]);
    let mut r = DeviceQueryResponse::new();
    {
        let mut h = r.as_mut();
        let mut d = h.device_mut();
        d.set_timestamp(77);
    }
    assert_eq!(r.device().timestamp(), 77);
}

#[test]
fn unknown_fields_inside_a_map_entry_are_dropped() {
    let b = DeviceBroadcast::parse(&[0x42, 5, 0x0a, 1, b'k', 0x18, 1]).unwrap();
    assert_eq!(b.metadata().get("k"), Some(""));
    assert_eq!(b.serialize().unwrap(), vec![0x42, 5, 0x0a, 1, b'k', 0x12, 0]);
}

#[test]
fn fixed_width_value_for_a_repeated_enum_is_kept_as_unknown() {
    let data = [0x25, 1, 2, 3, 4];
    let b = DeviceBroadcast::parse(&data).unwrap();
    assert!(b.capabilities().is_empty());
    assert_eq!(b.serialize().unwrap(), data.to_vec());
}

#[test]
fn discovery_enum_debug_text() {
    assert_eq!(DeviceType::Windows().debug_text(), "DeviceType::Windows");
    assert_eq!(DeviceType(5).debug_text(), "DeviceType::from(5)");
    assert_eq!(DeviceCapability::CapabilityEncryption().debug_text(), "DeviceCapability::CapabilityEncryption");
    assert_eq!(DeviceCapability(-1).debug_text(), "DeviceCapability::from(-1)");
    assert_eq!(DeviceCapability(100).debug_text(), "DeviceCapability::from(100)");
}

fn nested_groups(depth: usize) -> Vec<u8> {
    let mut data = vec![0x0b; depth];
    data.extend(std::iter::repeat(0x0c).take(depth));
    data
}

fn length_prefixed(key: u8, payload: &[u8]) -> Vec<u8> {
    let mut data = vec![key];
    let mut len = payload.len();
    while len >= 0x80 {
        data.push((len as u8 & 0x7f) | 0x80);
        len >>= 7;
    }
    data.push(len as u8);
    data.extend_from_slice(payload);
    data
}

#[test]
fn a_map_entry_in_a_listed_device_has_two_levels_of_nesting_less() {
    let scan = |groups: usize| {
        let entry = length_prefixed(0x42, &nested_groups(groups));
        length_prefixed(0x0a, &entry)
    };
    let r = ScanResponse::parse(&scan(98)).unwrap();
    assert_eq!(r.devices().len(), 1);
    assert_eq!(r.devices()[0].metadata().get(""), Some(""));
    assert!(ScanResponse::parse(&scan(99)).is_err());
    assert!(DeviceBroadcast::parse(&length_prefixed(0x42, &nested_groups(99))).is_ok());
    assert!(DeviceBroadcast::parse(&length_prefixed(0x42, &nested_groups(100))).is_err());
}

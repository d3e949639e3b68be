use nearclip_protocol::common::{
    CapabilityNegotiation, CapabilityNegotiationResponse, ErrorCode, ErrorMessage, ErrorMessageView, Heartbeat,
    HeartbeatAck, HeartbeatView, ProtocolVersion,
};

fn heartbeat(device_id: &str, timestamp: u64, sequence_number: u32) -> Heartbeat {
    let mut m = Heartbeat::new();
    m.set_device_id(device_id);
    m.set_timestamp(timestamp);
    m.set_sequence_number(sequence_number);
    m
}

fn version(major: u32, minor: u32, patch: u32, build_info: &str) -> ProtocolVersion {
    let mut v = ProtocolVersion::new();
    v.set_major(major);
    v.set_minor(minor);
    v.set_patch(patch);
    v.set_build_info(build_info);
    v
}

#[test]
fn heartbeat_serializes_fields_in_number_order() {
    let m = heartbeat("dev", 1, 2);
    let bytes = m.serialize().unwrap();
    assert_eq!(bytes, vec![0x0a, 3, b'd', b'e', b'v', 0x10, 1, 0x18, 2]);
}

#[test]
fn default_fields_are_not_written() {
    let m = Heartbeat::new();
    assert_eq!(m.serialize().unwrap(), Vec::<u8>::new());
    let m = heartbeat("", 0, 7);
    assert_eq!(m.serialize().unwrap(), vec![0x18, 7]);
}

#[test]
fn multi_byte_varint_is_written_least_significant_group_first() {
    let m = heartbeat("", 300, 0);
    assert_eq!(m.serialize().unwrap(), vec![0x10, 0xac, 0x02]);
    let m = heartbeat("", u64::MAX, 0);
    assert_eq!(
        m.serialize().unwrap(),
        vec![0x10, 0xff, 0xff, 0xff, 0xff, 0xff, 0xff, 0xff, 0xff, 0xff, 0x01]
    );
}

#[test]
fn heartbeat_parses_what_it_serialized() {
    let m = heartbeat("phone-1", 1_700_000_000_000, 42);
    let bytes = m.serialize().unwrap();
    let back = Heartbeat::parse(&bytes).unwrap();
    assert_eq!(back.device_id(), "phone-1");
    assert_eq!(back.timestamp(), 1_700_000_000_000);
    assert_eq!(back.sequence_number(), 42);
}

#[test]
fn parse_of_empty_input_is_the_empty_message() {
    let m = Heartbeat::parse(&[]).unwrap();
    assert_eq!(m.device_id(), "");
    assert_eq!(m.timestamp(), 0);
    assert_eq!(m.sequence_number(), 0);
}

#[test]
fn truncated_string_is_refused() {
    assert!(Heartbeat::parse(&[0x0a, 5, b'a']).is_err());
}

#[test]
fn truncated_varint_is_refused() {
    assert!(Heartbeat::parse(&[0x10, 0x80]).is_err());
    assert!(Heartbeat::parse(&[0x10]).is_err());
}

#[test]
fn invalid_utf8_string_is_refused() {
    assert!(Heartbeat::parse(&[0x0a, 1, 0xff]).is_err());
    assert!(Heartbeat::parse(&[0x0a, 2, 0xc3, 0xa9]).is_ok());
}

#[test]
fn malformed_groups_other_wire_types_and_field_zero_are_refused() {
    assert!(Heartbeat::parse(&[0x0b]).is_err());
    assert!(Heartbeat::parse(&[0x0c]).is_err());
    assert!(Heartbeat::parse(&[0x0e, 0]).is_err());
    assert!(Heartbeat::parse(&[0x00, 0x01]).is_err());
}

#[test]
fn overlong_varint_is_refused() {
    let mut data = vec![0x10];
    data.extend_from_slice(&[0x80; 10]);
    data.push(0x01);
    assert!(Heartbeat::parse(&data).is_err());
}

#[test]
fn varint_bits_beyond_64_are_dropped() {
    let data = [0x10, 0xff, 0xff, 0xff, 0xff, 0xff, 0xff, 0xff, 0xff, 0xff, 0x02];
    let m = Heartbeat::parse(&data).unwrap();
    assert_eq!(m.timestamp(), 0x7fff_ffff_ffff_ffff);
}

#[test]
fn keys_take_at_most_five_bytes() {
    let m = Heartbeat::parse(&[0x90, 0x80, 0x80, 0x80, 0x00, 5]).unwrap();
    assert_eq!(m.timestamp(), 5);
    assert!(Heartbeat::parse(&[0x90, 0x80, 0x80, 0x80, 0x80, 0x00, 5]).is_err());
}

#[test]
fn unknown_fields_are_kept_and_written_after_known_ones() {
    let mut unknown = vec![0x98, 0x06, 0x01];
    unknown.extend_from_slice(&[0x79, 1, 2, 3, 4, 5, 6, 7, 8]);
    unknown.extend_from_slice(&[0x75, 1, 2, 3, 4]);
    unknown.extend_from_slice(&[0x22, 2, b'x', b'y']);
    let mut data = unknown.clone();
    data.extend_from_slice(&[0x10, 5]);
    let m = Heartbeat::parse(&data).unwrap();
    assert_eq!(m.timestamp(), 5);
    assert_eq!(m.device_id(), "");
    let mut expected = vec![0x10, 5];
    expected.extend_from_slice(&unknown);
    assert_eq!(m.serialize().unwrap(), expected);
}

#[test]
fn truncated_unknown_fixed_field_is_refused() {
    assert!(Heartbeat::parse(&[0x79, 1, 2, 3]).is_err());
    assert!(Heartbeat::parse(&[0x75, 1, 2, 3]).is_err());
}

#[test]
fn known_field_with_other_wire_type_is_kept_as_unknown() {
    let data = [0x12, 1, 0, 0x08, 9];
    let m = Heartbeat::parse(&data).unwrap();
    assert_eq!(m.timestamp(), 0);
    assert_eq!(m.device_id(), "");
    assert_eq!(m.serialize().unwrap(), data.to_vec());
}

#[test]
fn unknown_fields_are_appended_on_merge_and_dropped_on_clear() {
    let mut a = Heartbeat::parse(&[0x20, 1, 0x10, 3]).unwrap();
    let b = Heartbeat::parse(&[0x28, 2]).unwrap();
    a.merge_from(b.as_view());
    assert_eq!(a.serialize().unwrap(), vec![0x10, 3, 0x20, 1, 0x28, 2]);
    let copy = a.clone();
    assert_eq!(copy.serialize().unwrap(), a.serialize().unwrap());
    a.clear();
    assert_eq!(a.serialize().unwrap(), Vec::<u8>::new());
}

#[test]
fn sub_message_keeps_its_own_unknown_fields() {
    let data = [0x0a, 4, 0x08, 1, 0x30, 7];
    let m = CapabilityNegotiation::parse(&data).unwrap();
    assert_eq!(m.min_version().major(), 1);
    assert_eq!(m.serialize().unwrap(), data.to_vec());
}

#[test]
fn last_value_of_a_scalar_field_wins() {
    let m = Heartbeat::parse(&[0x10, 1, 0x10, 2, 0x0a, 1, b'a', 0x0a, 1, b'b']).unwrap();
    assert_eq!(m.timestamp(), 2);
    assert_eq!(m.device_id(), "b");
}

#[test]
fn u32_field_keeps_the_low_32_bits() {
    let m = Heartbeat::parse(&[0x18, 0x85, 0x80, 0x80, 0x80, 0x10]).unwrap();
    assert_eq!(m.sequence_number(), 5);
}

#[test]
fn heartbeat_merge_from_overwrites_set_fields_only() {
    let mut a = heartbeat("a", 10, 1);
    let b = heartbeat("", 20, 0);
    a.merge_from(b.as_view());
    assert_eq!(a.device_id(), "a");
    assert_eq!(a.timestamp(), 20);
    assert_eq!(a.sequence_number(), 1);
}

#[test]
fn concatenated_encodings_parse_as_the_merge() {
    let a = heartbeat("a", 10, 1);
    let b = heartbeat("bb", 0, 3);
    let mut data = a.serialize().unwrap();
    data.extend_from_slice(&b.serialize().unwrap());
    let parsed = Heartbeat::parse(&data).unwrap();
    let mut merged = a.clone();
    merged.merge_from(b.as_view());
    assert_eq!(parsed.serialize().unwrap(), merged.serialize().unwrap());
    assert_eq!(parsed.device_id(), "bb");
    assert_eq!(parsed.timestamp(), 10);
    assert_eq!(parsed.sequence_number(), 3);
}

#[test]
fn merging_the_empty_message_changes_nothing() {
    let mut a = heartbeat("x", 3, 4);
    let before = a.serialize().unwrap();
    a.merge_from(HeartbeatView::default());
    assert_eq!(a.serialize().unwrap(), before);
    a.merge_from(Heartbeat::new().as_view());
    assert_eq!(a.serialize().unwrap(), before);
}

#[test]
fn clear_and_parse_replaces_the_content() {
    let mut m = heartbeat("old", 1, 1);
    m.clear_and_parse(&[0x18, 9]).unwrap();
    assert_eq!(m.device_id(), "");
    assert_eq!(m.timestamp(), 0);
    assert_eq!(m.sequence_number(), 9);
    assert!(m.clear_and_parse(&[0x0a]).is_err());
    assert!(m.clear_and_parse_dont_enforce_required(&[0x10, 4]).is_ok());
    assert_eq!(m.timestamp(), 4);
}

#[test]
fn copy_take_and_clear() {
    let src = heartbeat("s", 5, 6);
    let mut dst = Heartbeat::new();
    dst.copy_from(src.as_view());
    assert_eq!(dst.serialize().unwrap(), src.serialize().unwrap());
    let mut from = heartbeat("t", 7, 8);
    let mut to = Heartbeat::new();
    to.take_from(&mut from);
    assert_eq!(to.device_id(), "t");
    assert_eq!(from.serialize().unwrap(), Vec::<u8>::new());
    to.clear();
    assert_eq!(to.timestamp(), 0);
}

#[test]
fn writes_through_the_mut_handle_reach_the_message() {
    let mut m = Heartbeat::new();
    {
        let mut h = m.as_mut();
        h.set_device_id("via-mut");
        h.set_timestamp(11);
        assert_eq!(h.timestamp(), 11);
        assert_eq!(h.as_view().device_id(), "via-mut");
    }
    assert_eq!(m.device_id(), "via-mut");
    assert_eq!(m.timestamp(), 11);
}

#[test]
fn default_view_reads_as_the_empty_message() {
    let v = ErrorMessageView::default();
    assert_eq!(v.code(), ErrorCode::ErrorNone());
    assert_eq!(v.message(), "");
    assert_eq!(v.details(), "");
    assert_eq!(v.timestamp(), 0);
    assert_eq!(v.to_owned().serialize().unwrap(), Vec::<u8>::new());
}

#[test]
fn error_message_encoding() {
    let mut m = ErrorMessage::new();
    m.set_code(ErrorCode::ErrorDeviceNotFound());
    m.set_message("m");
    m.set_timestamp(300);
    assert_eq!(m.serialize().unwrap(), vec![0x08, 5, 0x12, 1, b'm', 0x20, 0xac, 0x02]);
    let back = ErrorMessage::parse(&m.serialize().unwrap()).unwrap();
    assert_eq!(back.code(), ErrorCode::ErrorDeviceNotFound());
    assert_eq!(back.message(), "m");
}

#[test]
fn negative_enum_value_takes_ten_bytes_and_reads_back() {
    let mut m = ErrorMessage::new();
    m.set_code(ErrorCode::from(-1));
    let bytes = m.serialize().unwrap();
    assert_eq!(bytes, vec![0x08, 0xff, 0xff, 0xff, 0xff, 0xff, 0xff, 0xff, 0xff, 0xff, 0x01]);
    assert_eq!(ErrorMessage::parse(&bytes).unwrap().code(), ErrorCode(-1));
}

#[test]
fn unknown_enum_value_is_kept() {
    let m = ErrorMessage::parse(&[0x08, 99]).unwrap();
    assert_eq!(m.code(), ErrorCode(99));
    assert_eq!(m.code().constant_name(), None);
    assert_eq!(m.serialize().unwrap(), vec![0x08, 99]);
}

#[test]
fn error_code_values_and_names() {
    assert_eq!(i32::from(ErrorCode::ErrorTimeout()), 9);
    assert_eq!(ErrorCode::from(3), ErrorCode::ErrorExpiredMessage());
    assert_eq!(ErrorCode::default(), ErrorCode::ErrorNone());
    assert!(ErrorCode::is_known(0));
    assert!(ErrorCode::is_known(11));
    assert!(!ErrorCode::is_known(12));
    assert!(!ErrorCode::is_known(-1));
    assert_eq!(ErrorCode::ErrorInternalError().constant_name(), Some("ErrorInternalError"));
    assert_eq!(ErrorCode::ErrorNone().constant_name(), Some("ErrorNone"));
}

#[test]
fn heartbeat_ack_roundtrip() {
    let mut m = HeartbeatAck::new();
    m.set_device_id("d");
    m.set_received_timestamp(2);
    m.set_sequence_number(3);
    let bytes = m.serialize().unwrap();
    assert_eq!(bytes, vec![0x0a, 1, b'd', 0x10, 2, 0x18, 3]);
    let back = HeartbeatAck::parse(&bytes).unwrap();
    assert_eq!(back.received_timestamp(), 2);
    assert_eq!(back.sequence_number(), 3);
}

#[test]
fn protocol_version_encoding() {
    let v = version(1, 2, 3, "b");
    assert_eq!(v.serialize().unwrap(), vec![0x08, 1, 0x10, 2, 0x18, 3, 0x22, 1, b'b']);
    let back = ProtocolVersion::parse(&v.serialize().unwrap()).unwrap();
    assert_eq!((back.major(), back.minor(), back.patch()), (1, 2, 3));
    assert_eq!(back.build_info(), "b");
}

#[test]
fn present_empty_sub_message_is_written_and_read_back() {
    let mut m = CapabilityNegotiation::new();
    assert!(!m.has_min_version());
    m.set_min_version(ProtocolVersion::new());
    assert!(m.has_min_version());
    let bytes = m.serialize().unwrap();
    assert_eq!(bytes, vec![0x0a, 0]);
    let back = CapabilityNegotiation::parse(&bytes).unwrap();
    assert!(back.has_min_version());
    assert!(!back.has_max_version());
    assert!(back.min_version_opt().is_some());
    assert!(back.max_version_opt().is_none());
}

#[test]
fn absent_sub_message_reads_as_empty() {
    let m = CapabilityNegotiation::new();
    assert_eq!(m.max_version().major(), 0);
    assert_eq!(m.max_version().build_info(), "");
}

#[test]
fn sub_message_fields_seen_twice_are_merged() {
    let data = [0x0a, 2, 0x08, 1, 0x0a, 2, 0x10, 2];
    let m = CapabilityNegotiation::parse(&data).unwrap();
    assert_eq!(m.min_version().major(), 1);
    assert_eq!(m.min_version().minor(), 2);
}

#[test]
fn malformed_sub_message_is_refused() {
    assert!(CapabilityNegotiation::parse(&[0x0a, 1, 0x08]).is_err());
    assert!(CapabilityNegotiation::parse(&[0x0a, 3, 0x22, 1, 0xff]).is_err());
}

#[test]
fn sub_message_mut_sets_presence() {
    let mut m = CapabilityNegotiation::new();
    {
        let mut v = m.max_version_mut();
        v.set_major(4);
    }
    assert!(m.has_max_version());
    assert_eq!(m.max_version().major(), 4);
    m.clear_max_version();
    assert!(!m.has_max_version());
}

#[test]
fn repeated_strings_keep_order_and_are_appended_on_merge() {
    let mut m = CapabilityNegotiation::new();
    m.set_supported_features(vec!["a".to_string(), "".to_string()]);
    m.required_features_mut().push("r".to_string());
    let bytes = m.serialize().unwrap();
    assert_eq!(bytes, vec![0x1a, 1, b'a', 0x1a, 0, 0x22, 1, b'r']);
    let mut back = CapabilityNegotiation::parse(&bytes).unwrap();
    assert_eq!(back.supported_features(), &["a".to_string(), "".to_string()][..]);
    back.merge_from(m.as_view());
    assert_eq!(back.supported_features().len(), 4);
    assert_eq!(back.required_features(), &["r".to_string(), "r".to_string()][..]);
}

#[test]
fn capability_negotiation_concat_merges_sub_messages() {
    let mut a = CapabilityNegotiation::new();
    a.set_min_version(version(1, 0, 0, "x"));
    a.set_supported_features(vec!["f1".to_string()]);
    let mut b = CapabilityNegotiation::new();
    b.set_min_version(version(0, 5, 0, ""));
    b.set_supported_features(vec!["f2".to_string()]);
    let mut data = a.serialize().unwrap();
    data.extend_from_slice(&b.serialize().unwrap());
    let parsed = CapabilityNegotiation::parse(&data).unwrap();
    assert_eq!(parsed.min_version().major(), 1);
    assert_eq!(parsed.min_version().minor(), 5);
    assert_eq!(parsed.min_version().build_info(), "x");
    assert_eq!(parsed.supported_features(), &["f1".to_string(), "f2".to_string()][..]);
    let mut merged = a.clone();
    merged.merge_from(b.as_view());
    assert_eq!(parsed.serialize().unwrap(), merged.serialize().unwrap());
}

#[test]
fn capability_negotiation_response_bool_field() {
    let mut m = CapabilityNegotiationResponse::new();
    m.set_compatibility(true);
    m.set_selected_version(version(2, 0, 0, ""));
    m.set_unsupported_features(vec!["u".to_string()]);
    let bytes = m.serialize().unwrap();
    assert_eq!(bytes, vec![0x0a, 2, 0x08, 2, 0x1a, 1, b'u', 0x20, 1]);
    let back = CapabilityNegotiationResponse::parse(&bytes).unwrap();
    assert!(back.compatibility());
    assert_eq!(back.selected_version().major(), 2);
    let m2 = CapabilityNegotiationResponse::parse(&[0x20, 2]).unwrap();
    assert!(m2.compatibility());
}

#[test]
fn nested_writes_through_the_mut_handle() {
    let mut m = CapabilityNegotiation::new();
    {
        let mut h = m.as_mut();
        h.supported_features_mut().push("s".to_string());
        let mut v = h.min_version_mut();
        v.set_patch(3);
    }
    assert_eq!(m.supported_features(), &["s".to_string()][..]);
    assert!(m.has_min_version());
    assert_eq!(m.min_version().patch(), 3);
}

#[test]
fn unknown_group_is_kept_as_it_came() {
    let data = [0x0b, 0x10, 0x01, 0x0c, 0x10, 5];
    let m = Heartbeat::parse(&data).unwrap();
    assert_eq!(m.timestamp(), 5);
    assert_eq!(m.serialize().unwrap(), vec![0x10, 5, 0x0b, 0x10, 0x01, 0x0c]);
}

#[test]
fn group_must_close_with_its_own_number() {
    assert!(Heartbeat::parse(&[0x0b, 0x14]).is_err());
    assert!(Heartbeat::parse(&[0x0b, 0x10, 0x01]).is_err());
    assert!(Heartbeat::parse(&[0x0b, 0x13, 0x14, 0x0c]).is_ok());
}

#[test]
fn groups_nest_at_most_a_hundred_deep() {
    let nested = |depth: usize| {
        let mut data = vec![0x0b; depth];
        data.extend(std::iter::repeat(0x0c).take(depth));
        data
    };
    assert!(Heartbeat::parse(&nested(100)).is_ok());
    assert!(Heartbeat::parse(&nested(101)).is_err());
}

fn nested_groups(depth: usize) -> Vec<u8> {
    let mut data = vec![0x0b; depth];
    data.extend(std::iter::repeat(0x0c).take(depth));
    data
}

fn length_prefixed(key: u8, payload: &[u8]) -> Vec<u8> {
    let mut data = vec![key];
    let mut len = payload.len();
    while len >= 0x80 {
        data.push((len as u8 & 0x7f) | 0x80);
        len >>= 7;
    }
    data.push(len as u8);
    data.extend_from_slice(payload);
    data
}

#[test]
fn a_sub_message_has_one_level_of_nesting_less() {
    let ok = length_prefixed(0x0a, &nested_groups(99));
    let m = CapabilityNegotiation::parse(&ok).unwrap();
    assert!(m.has_min_version());
    let too_deep = length_prefixed(0x0a, &nested_groups(100));
    assert!(CapabilityNegotiation::parse(&too_deep).is_err());
    assert!(ProtocolVersion::parse(&nested_groups(100)).is_ok());
}

#[test]
fn a_sub_message_with_deep_unknown_groups_does_not_read_back() {
    let v = ProtocolVersion::parse(&nested_groups(100)).unwrap();
    let mut m = CapabilityNegotiation::new();
    m.set_min_version(v);
    let bytes = m.serialize().unwrap();
    assert_eq!(bytes, length_prefixed(0x0a, &nested_groups(100)));
    assert!(CapabilityNegotiation::parse(&bytes).is_err());
}

#[test]
fn error_code_debug_text_names_known_values() {
    assert_eq!(ErrorCode::ErrorTimeout().debug_text(), "ErrorCode::ErrorTimeout");
    assert_eq!(ErrorCode::ErrorNone().debug_text(), "ErrorCode::ErrorNone");
    assert_eq!(ErrorCode(11).debug_text(), "ErrorCode::ErrorInternalError");
}

#[test]
fn error_code_debug_text_shows_unknown_values_by_number() {
    assert_eq!(ErrorCode(42).debug_text(), "ErrorCode::from(42)");
    assert_eq!(ErrorCode(12).debug_text(), "ErrorCode::from(12)");
    assert_eq!(ErrorCode(-7).debug_text(), "ErrorCode::from(-7)");
    assert_eq!(ErrorCode(i32::MIN).debug_text(), "ErrorCode::from(-2147483648)");
    assert_eq!(ErrorCode(i32::MAX).debug_text(), "ErrorCode::from(2147483647)");
}

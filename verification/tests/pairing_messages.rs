use nearclip_protocol::pairing::{
    PairingConfirmation, PairingRequest, PairingResponse, PairingStatus, PairingStatusUpdate, UnpairingRequest,
};

#[test]
fn pairing_request_roundtrip() {
    let mut r = PairingRequest::new();
    r.set_initiator_id("i");
    r.set_target_id("t");
    r.set_public_key(&[1, 2]);
    r.set_device_name("n");
    r.set_nonce(&[0]);
    r.set_timestamp(7);
    let bytes = r.serialize().unwrap();
    assert_eq!(
        bytes,
        vec![0x0a, 1, b'i', 0x12, 1, b't', 0x1a, 2, 1, 2, 0x22, 1, b'n', 0x2a, 1, 0, 0x30, 7]
    );
    let back = PairingRequest::parse(&bytes).unwrap();
    assert_eq!(back.initiator_id(), "i");
    assert_eq!(back.target_id(), "t");
    assert_eq!(back.public_key(), &[1u8, 2][..]);
    assert_eq!(back.device_name(), "n");
    assert_eq!(back.nonce(), &[0u8][..]);
    assert_eq!(back.timestamp(), 7);
}

#[test]
fn bytes_field_takes_any_bytes() {
    let back = PairingRequest::parse(&[0x1a, 2, 0xff, 0xfe]).unwrap();
    assert_eq!(back.public_key(), &[0xffu8, 0xfe][..]);
    assert!(PairingRequest::parse(&[0x0a, 2, 0xff, 0xfe]).is_err());
}

#[test]
fn pairing_response_merge_keeps_unset_fields() {
    let mut a = PairingResponse::new();
    a.set_responder_id("r");
    a.set_shared_secret(&[9]);
    let mut b = PairingResponse::new();
    b.set_signed_nonce(&[4, 4]);
    b.set_timestamp(3);
    let mut data = a.serialize().unwrap();
    data.extend_from_slice(&b.serialize().unwrap());
    let parsed = PairingResponse::parse(&data).unwrap();
    a.merge_from(b.as_view());
    assert_eq!(parsed.serialize().unwrap(), a.serialize().unwrap());
    assert_eq!(a.responder_id(), "r");
    assert_eq!(a.shared_secret(), &[9u8][..]);
    assert_eq!(a.signed_nonce(), &[4u8, 4][..]);
    assert_eq!(a.timestamp(), 3);
}

#[test]
fn pairing_confirmation_roundtrip() {
    let mut c = PairingConfirmation::new();
    c.set_session_id("s");
    c.set_confirmation_hash(&[0xab]);
    c.set_timestamp(1);
    let bytes = c.serialize().unwrap();
    assert_eq!(bytes, vec![0x0a, 1, b's', 0x12, 1, 0xab, 0x18, 1]);
    let back = PairingConfirmation::parse(&bytes).unwrap();
    assert_eq!(back.confirmation_hash(), &[0xabu8][..]);
}

#[test]
fn pairing_status_update_roundtrip() {
    let mut u = PairingStatusUpdate::new();
    u.set_session_id("s");
    u.set_status(PairingStatus::PairingFailed());
    u.set_error_message("e");
    u.set_timestamp(2);
    let bytes = u.serialize().unwrap();
    assert_eq!(bytes, vec![0x0a, 1, b's', 0x10, 4, 0x1a, 1, b'e', 0x20, 2]);
    let back = PairingStatusUpdate::parse(&bytes).unwrap();
    assert_eq!(back.status(), PairingStatus::PairingFailed());
    assert_eq!(back.error_message(), "e");
}

#[test]
fn pairing_status_values_and_names() {
    assert_eq!(i32::from(PairingStatus::PairingCompleted()), 5);
    assert_eq!(PairingStatus::from(2), PairingStatus::PairingPending());
    assert_eq!(PairingStatus::PairingInitiated().constant_name(), Some("PairingInitiated"));
    assert_eq!(PairingStatus(6).constant_name(), None);
    assert!(PairingStatus::is_known(5));
    assert!(!PairingStatus::is_known(6));
    assert_eq!(PairingStatus::default(), PairingStatus::PairingUnknown());
}

#[test]
fn unpairing_request_roundtrip_and_mut_handle() {
    let mut u = UnpairingRequest::new();
    {
        let mut h = u.as_mut();
        h.set_device_id("d");
        h.set_reason("r");
        h.set_signature(&[5]);
    }
    let bytes = u.serialize().unwrap();
    assert_eq!(bytes, vec![0x0a, 1, b'd', 0x12, 1, b'r', 0x1a, 1, 5]);
    let mut other = UnpairingRequest::new();
    other.as_mut().clear_and_parse(&bytes).unwrap();
    assert_eq!(other.reason(), "r");
    assert_eq!(other.signature(), &[5u8][..]);
    let mut copy = UnpairingRequest::new();
    copy.as_mut().copy_from(other.as_view());
    assert_eq!(copy.serialize().unwrap(), bytes);
}

#[test]
fn pairing_status_debug_text() {
    assert_eq!(PairingStatus::PairingCompleted().debug_text(), "PairingStatus::PairingCompleted");
    assert_eq!(PairingStatus(6).debug_text(), "PairingStatus::from(6)");
    assert_eq!(PairingStatus(0).debug_text(), "PairingStatus::PairingUnknown");
}

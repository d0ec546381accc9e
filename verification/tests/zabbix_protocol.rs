use zbus::zabbix::{
    decode_reply, frame_request, read_reply, reply_is_well_formed, reply_payload_bytes,
    ZabbixError, ZabbixSender,
};

#[test]
fn sender_keeps_address() {
    let s = ZabbixSender::new("127.0.0.1:10051".to_string());
    assert_eq!(s.addr, "127.0.0.1:10051");
}

#[test]
fn request_frame_layout() {
    let f = frame_request(b"{}");
    assert_eq!(f, vec![90, 66, 88, 68, 1, 2, 0, 0, 0, 0, 0, 0, 0, b'{', b'}']);
}

#[test]
fn request_frame_length_is_little_endian() {
    let data = vec![7u8; 300];
    let f = frame_request(&data);
    assert_eq!(&f[5..9], &[44, 1, 0, 0]);
    assert_eq!(f.len(), 13 + 300);
}

#[test]
fn frame_round_trips_as_reply() {
    let data = b"{\"response\":\"success\"}".to_vec();
    let f = frame_request(&data);
    assert!(reply_is_well_formed(&f));
    assert_eq!(reply_payload_bytes(&f), data);
}

#[test]
fn malformed_replies_are_detected() {
    assert!(!reply_is_well_formed(&[]));
    assert!(!reply_is_well_formed(&[90, 66, 88, 68, 2, 0, 0, 0, 0, 0, 0, 0, 0]));
    assert!(!reply_is_well_formed(&[90, 66, 88, 68, 1, 5, 0, 0, 0, 0, 0, 0, 0, 1]));
    assert!(reply_is_well_formed(&[90, 66, 88, 68, 1, 0, 0, 0, 0, 0, 0, 0, 0]));
}

#[test]
fn payload_ignores_trailing_bytes() {
    let buf = [90, 66, 88, 68, 1, 2, 0, 0, 0, 0, 0, 0, 0, b'o', b'k', b'!'];
    assert_eq!(reply_payload_bytes(&buf), b"ok".to_vec());
}

#[test]
fn accepted_reply_is_returned() {
    match decode_reply("processed: 1".to_string()) {
        Ok(s) => assert_eq!(s, "processed: 1"),
        Err(_) => panic!("reply should be accepted"),
    }
}

#[test]
fn refusal_carries_reason() {
    match decode_reply("ZBX_NOTSUPPORTED\0Unknown key\0extra".to_string()) {
        Err(ZabbixError::SenderError(e)) => assert_eq!(e, "Unknown key"),
        _ => panic!("reply should be refused"),
    }
    match decode_reply("ZBX_NOTSUPPORTED\0".to_string()) {
        Err(ZabbixError::SenderError(e)) => assert_eq!(e, ""),
        _ => panic!("reply should be refused"),
    }
}

#[test]
fn near_refusal_is_accepted() {
    assert!(decode_reply("ZBX_NOTSUPPORTED".to_string()).is_ok());
    assert!(decode_reply("ZBX_NOTSUPPORTEX\0x".to_string()).is_ok());
}

#[test]
fn read_reply_decodes_payload() {
    let f = frame_request(b"ZBX_NOTSUPPORTED\0bad\0");
    match read_reply(&f) {
        Err(ZabbixError::SenderError(e)) => assert_eq!(e, "bad"),
        _ => panic!("reply should be refused"),
    }
    let g = frame_request(&[b'o', b'k', 0xff]);
    match read_reply(&g) {
        Ok(s) => assert_eq!(s, "ok\u{fffd}"),
        Err(_) => panic!("reply should be accepted"),
    }
}

#[test]
fn error_messages() {
    assert_eq!(ZabbixError::SenderError("x".to_string()).message(), "ZabbixSenderError (x)");
    assert_eq!(ZabbixError::NotSupported("y".to_string()).message(), "ZabbixNotSupported (y)");
}

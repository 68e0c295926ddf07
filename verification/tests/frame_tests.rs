use anytls::frame::{
    decode, Decoded, CodecError, Frame, RawHeader, CMD_HEART_REQUEST, CMD_PSH, CMD_SYN,
    HEADER_OVERHEAD_SIZE, MAX_PAYLOAD_LEN,
};

#[test]
fn test_frame_serialization() {
    let frame = Frame::with_data(CMD_PSH, 123, b"hello".to_vec());
    let bytes = frame.to_bytes();
    let parsed = Frame::from_bytes(&bytes).unwrap();

    assert_eq!(frame.cmd, parsed.cmd);
    assert_eq!(frame.sid, parsed.sid);
    assert_eq!(frame.data, parsed.data);
}

#[test]
fn frame_wire_layout_push_abc() {
    // A PSH of "ABC" on stream 1 has this exact wire form.
    let frame = Frame::with_data(CMD_PSH, 1, b"ABC".to_vec());
    let bytes = frame.to_bytes();
    assert_eq!(bytes, vec![0x02, 0x00, 0x00, 0x00, 0x01, 0x00, 0x03, 0x41, 0x42, 0x43]);
}

#[test]
fn frame_round_trip_various() {
    for (cmd, sid, data) in [
        (0u8, 0u32, vec![]),
        (255, 4294967295, vec![7u8; 65535]),
        (CMD_SYN, 1, vec![]),
        (CMD_HEART_REQUEST, 42, vec![1, 2, 3]),
    ] {
        let frame = Frame::with_data(cmd, sid, data.clone());
        let bytes = frame.encode().unwrap();
        match decode(&bytes) {
            Decoded::Done(parsed, used) => {
                assert_eq!(parsed.cmd, cmd);
                assert_eq!(parsed.sid, sid);
                assert_eq!(parsed.data, data);
                assert_eq!(used, bytes.len());
            }
            Decoded::NeedMore => panic!("whole frame did not decode"),
        }
    }
}

#[test]
fn encode_rejects_oversize_payload_only() {
    let big = Frame::with_data(CMD_PSH, 1, vec![0u8; MAX_PAYLOAD_LEN + 1]);
    assert_eq!(big.encode(), Err(CodecError::PayloadTooLarge));
    let max = Frame::with_data(CMD_PSH, 1, vec![0u8; MAX_PAYLOAD_LEN]);
    assert!(max.encode().is_ok());
}

#[test]
fn decode_needs_whole_frame() {
    let frame = Frame::with_data(CMD_PSH, 9, b"abcdef".to_vec());
    let bytes = frame.to_bytes();
    for cut in 0..bytes.len() {
        assert!(matches!(decode(&bytes[..cut]), Decoded::NeedMore));
    }
    let mut extra = bytes.clone();
    extra.extend_from_slice(b"rest");
    match decode(&extra) {
        Decoded::Done(parsed, used) => {
            assert_eq!(parsed.data, b"abcdef".to_vec());
            assert_eq!(used, bytes.len());
        }
        Decoded::NeedMore => panic!("frame with trailer did not decode"),
    }
}

#[test]
fn raw_header_fields() {
    let bytes = [0x08, 0x00, 0x00, 0x00, 0x2A, 0x00, 0x07];
    let h = RawHeader::from_bytes(&bytes).unwrap();
    assert_eq!(h.cmd, 8);
    assert_eq!(h.sid, 42);
    assert_eq!(h.length, 7);
    assert_eq!(HEADER_OVERHEAD_SIZE, 7);
    assert!(RawHeader::from_bytes(&bytes[..6]).is_err());
}

use stemplayer::error::Error;
use stemplayer::frame::{can_decode, Frame, OP_CMD};

#[test]
fn ack_round_trip() {
    let bytes = Frame::ack().encode().unwrap();
    assert_eq!(bytes, vec![0x01, 0x00, 0x00]);
    let decoded = Frame::decode(&bytes).unwrap();
    assert!(decoded.is_ack());
    assert!(decoded.payload.is_empty());
}

#[test]
fn cmd04_with_json_payload() {
    // length=0x11 (17), op=0x04, sub=0x05, JSON {"album":"A1"}, NUL
    let json = b"{\"album\":\"A1\"}\0";
    let mut payload = Vec::new();
    payload.push(0x05);
    payload.extend_from_slice(json);
    let frame = Frame::new(OP_CMD, payload);
    let bytes = frame.encode().unwrap();
    assert_eq!(bytes[0], 0x11);
    assert_eq!(bytes[1], 0x00);
    assert_eq!(bytes[2], 0x04);
    assert_eq!(bytes[3], 0x05);
    let decoded = Frame::decode(&bytes).unwrap();
    assert_eq!(frame, decoded);
}

#[test]
fn truncated_returns_error() {
    let buf = [0x10u8, 0x00]; // length says 16, but no payload
    assert!(matches!(Frame::decode(&buf), Err(Error::FrameTruncated { .. })));
}

#[test]
fn lengths_count_the_opcode() {
    let bytes = Frame::new(0x07, vec![9; 300]).encode().unwrap();
    assert_eq!(&bytes[..3], &[0x2d, 0x01, 0x07]);
    assert_eq!(bytes.len(), 303);
}

#[test]
fn largest_frame_fits() {
    let frame = Frame::new(0x07, vec![1; 65534]);
    let bytes = frame.encode().unwrap();
    assert_eq!(&bytes[..3], &[0xff, 0xff, 0x07]);
    assert_eq!(Frame::decode(&bytes).unwrap(), frame);
}

#[test]
fn larger_frames_are_refused() {
    assert_eq!(Frame::new(0x07, vec![1; 65535]).encode(), Err(Error::FrameTooLarge(65536)));
}

#[test]
fn what_follows_a_frame_is_ignored() {
    let frame = Frame::decode(&[0x02, 0x00, 0x01, 0x02, 0xee, 0xee]).unwrap();
    assert_eq!(frame, Frame::new(0x01, vec![0x02]));
    assert!(!frame.is_ack());
}

#[test]
fn every_cut_of_a_frame_is_truncated() {
    let bytes = Frame::new(OP_CMD, vec![1, 2, 3, 4]).encode().unwrap();
    for cut in 0..bytes.len() {
        let expected = if cut < 3 { 3 } else { 7 };
        assert_eq!(
            Frame::decode(&bytes[..cut]),
            Err(Error::FrameTruncated { expected, got: cut })
        );
    }
}

#[test]
fn encoding_what_was_decoded_gives_the_bytes_back() {
    let bytes = vec![0x03, 0x00, 0x05, 0x12, 0x00];
    assert_eq!(Frame::decode(&bytes).unwrap().encode().unwrap(), bytes);
}

#[test]
fn a_frame_without_room_for_its_opcode_cannot_be_decoded() {
    assert!(!can_decode(&[0x00, 0x00, 0x00]));
    assert!(can_decode(&[0x01, 0x00, 0x00]));
    assert!(can_decode(&[0x00, 0x00]));
}

#[test]
fn errors_say_what_went_wrong() {
    assert_eq!(Error::Usb("stall".to_string()).message(), "USB error: stall");
    assert_eq!(Error::NotFound.message(), "device not found (VID 0x1209 / PID 0x572a)");
    assert_eq!(Error::Busy.message(), "device already in use by another process or tab");
    assert_eq!(
        Error::FrameTooLarge(70001).message(),
        "frame too large: 70001 bytes (max 65535 + header)"
    );
    assert_eq!(
        Error::FrameTruncated { expected: 18, got: 2 }.message(),
        "frame truncated: expected 18 bytes, got 2"
    );
    assert_eq!(
        Error::UnexpectedResponse { got: 0x05, wanted: 0xab }.message(),
        "unexpected response opcode 0x05 (wanted 0xab)"
    );
    assert_eq!(Error::Json("eof".to_string()).message(), "JSON encode error: eof");
    assert_eq!(Error::Io("denied".to_string()).message(), "io: denied");
    assert_eq!(Error::Other("USB read timeout".to_string()).message(), "USB read timeout");
}

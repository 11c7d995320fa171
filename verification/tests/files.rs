use serde_json::Value;
use stemplayer::commands::FilePushType;
use stemplayer::files::{
    build_announce, build_chunk, build_typed_header, push_file, push_typed_file, CHUNK_SIZE,
};
use stemplayer::frame::Frame;

fn parse(text: &str) -> Value {
    serde_json::from_str(text).unwrap()
}

fn header(frame: &Frame) -> &str {
    assert_eq!(frame.op, 0x06);
    assert_eq!(frame.payload.last(), Some(&0));
    std::str::from_utf8(&frame.payload[..frame.payload.len() - 1]).unwrap()
}

#[test]
fn announce_layout_matches_capture() {
    // Capture for config.txt:
    //   length=0x39 (57), op=0x06, then JSON + NUL
    //   {"size":332,"type":"device-config","name":"config.txt"}\0
    let frame = build_announce("device-config", "config.txt", 332).unwrap();
    let bytes = frame.encode().unwrap();
    assert_eq!(bytes[0], 0x39);
    assert_eq!(bytes[1], 0x00);
    assert_eq!(bytes[2], 0x06);
    let body = &bytes[3..];
    // body should end with NUL
    assert_eq!(*body.last().unwrap(), 0);
}

#[test]
fn chunk_layout_matches_capture() {
    // Capture: length=0x2006 (8198), op=0x07, size=8192, flag=0, then 8192 bytes
    let payload = vec![0xAA; 8192];
    let frame = build_chunk(&payload);
    let bytes = frame.encode().unwrap();
    assert_eq!(u16::from_le_bytes([bytes[0], bytes[1]]), 8198);
    assert_eq!(bytes[2], 0x07);
    let chunk_size = u32::from_le_bytes([bytes[3], bytes[4], bytes[5], bytes[6]]);
    assert_eq!(chunk_size, 8192);
    assert_eq!(bytes[7], 0); // flag
    assert_eq!(&bytes[8..], &payload[..]);
}

#[test]
fn announcements_name_size_type_and_name() {
    let frame = build_announce("device-config", "config.txt", 332).unwrap();
    assert_eq!(header(&frame), "{\"size\":332,\"type\":\"device-config\",\"name\":\"config.txt\"}");
}

#[test]
fn a_file_goes_out_in_chunks() {
    let bytes: Vec<u8> = (0..20000u32).map(|i| i as u8).collect();
    let frames = push_file(&FilePushType::Dfu, "3_stpl.dfu", &bytes).unwrap();
    assert_eq!(frames.len(), 4);
    assert_eq!(header(&frames[0]), "{\"size\":20000,\"type\":\"dfu\",\"name\":\"3_stpl.dfu\"}");
    let mut sent = Vec::new();
    for (frame, size) in frames[1..].iter().zip([8192u32, 8192, 3616]) {
        assert_eq!(frame.op, 0x07);
        assert_eq!(&frame.payload[..4], &size.to_le_bytes());
        assert_eq!(frame.payload[4], 0);
        sent.extend_from_slice(&frame.payload[5..]);
    }
    assert_eq!(sent, bytes);
}

#[test]
fn a_small_file_is_one_chunk() {
    let frames = push_file(&FilePushType::DeviceConfig, "config.txt", &[1; 332]).unwrap();
    assert_eq!(frames.len(), 2);
    assert_eq!(frames[1].payload.len(), 337);
}

#[test]
fn an_empty_file_is_only_announced() {
    let frames = push_file(&FilePushType::Other("x".to_string()), "", &[]).unwrap();
    assert_eq!(frames.len(), 1);
    assert_eq!(header(&frames[0]), "{\"size\":0,\"type\":\"x\",\"name\":\"\"}");
}

#[test]
fn a_typed_header_opens_with_size_and_type() {
    let meta = parse("{\"album\": \"A5\", \"size\": 1, \"stem\": 2, \"type\": \"t\", \"a\": null}");
    assert_eq!(
        build_typed_header(&meta, 77).to_string(),
        "{\"size\":77,\"type\":\"t\",\"album\":\"A5\",\"stem\":2,\"a\":null}"
    );
}

#[test]
fn a_typed_header_can_do_without_a_type() {
    assert_eq!(build_typed_header(&parse("{\"b\": [1]}"), 0).to_string(), "{\"size\":0,\"b\":[1]}");
    assert_eq!(build_typed_header(&parse("[1, 2]"), 5).to_string(), "{\"size\":5}");
}

#[test]
fn the_closing_nul_is_in_the_last_chunk() {
    let meta = parse("{\"type\": \"track-config\"}");
    let frames = push_typed_file(&meta, &vec![7; CHUNK_SIZE + 1], true).unwrap();
    assert_eq!(frames.len(), 3);
    assert_eq!(header(&frames[0]), "{\"size\":8194,\"type\":\"track-config\"}");
    assert_eq!(frames[1].payload.len(), 5 + CHUNK_SIZE);
    assert_eq!(frames[2].payload, vec![2, 0, 0, 0, 0, 7, 0]);
}

#[test]
fn a_full_chunk_grows_by_the_closing_nul() {
    let frames = push_typed_file(&parse("{}"), &vec![7; CHUNK_SIZE], true).unwrap();
    assert_eq!(frames.len(), 2);
    assert_eq!(frames[1].payload.len(), 5 + CHUNK_SIZE + 1);
    assert_eq!(&frames[1].payload[..5], &[0x01, 0x20, 0, 0, 0]);
    assert_eq!(frames[1].payload.last(), Some(&0));
}

#[test]
fn an_empty_body_can_still_be_closed() {
    let frames = push_typed_file(&parse("{}"), &[], true).unwrap();
    assert_eq!(frames.len(), 2);
    assert_eq!(header(&frames[0]), "{\"size\":1}");
    assert_eq!(frames[1].payload, vec![1, 0, 0, 0, 0, 0]);
    assert_eq!(push_typed_file(&parse("{}"), &[], false).unwrap().len(), 1);
}

#[test]
fn an_open_body_is_sent_as_it_is() {
    let frames = push_typed_file(&parse("{\"type\": \"a\"}"), &[1, 2, 3], false).unwrap();
    assert_eq!(header(&frames[0]), "{\"size\":3,\"type\":\"a\"}");
    assert_eq!(frames[1].payload, vec![3, 0, 0, 0, 0, 1, 2, 3]);
}

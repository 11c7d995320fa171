use stemplayer::auth::{
    challenge_reply, challenge_request, login_request, read_challenge, serial_reply, ReplyStep,
};
use stemplayer::error::Error;
use stemplayer::frame::Frame;

fn response(sub: u8, json: &str) -> Vec<u8> {
    let mut payload = vec![sub];
    payload.extend_from_slice(json.as_bytes());
    payload.push(0);
    Frame::new(0x05, payload).encode().unwrap()
}

#[test]
fn the_serial_number_is_found() {
    let buf = response(0x01, "{\"appver\":\"1.0.1747\",\"sn\":\"0123456789abcdef\"}");
    match serial_reply().step(&buf, 1) {
        Ok(ReplyStep::Found(sn)) => assert_eq!(sn, "0123456789abcdef"),
        other => panic!("{:?}", other),
    }
}

#[test]
fn the_answer_to_a_challenge_is_found() {
    let buf = response(0x12, "{\"response\":\"ff00\"}");
    match challenge_reply().step(&buf, 4) {
        Ok(ReplyStep::Found(answer)) => assert_eq!(answer, "ff00"),
        other => panic!("{:?}", other),
    }
}

#[test]
fn other_frames_are_passed_over() {
    let nak = [0x02, 0x00, 0x01, 0x02];
    let awaited = serial_reply();
    for reads in 1..4 {
        assert!(matches!(awaited.step(&nak, reads), Ok(ReplyStep::ReadOn)));
    }
    assert_eq!(
        awaited.step(&nak, 4).unwrap_err(),
        Error::Other("device never returned VERSION info".to_string())
    );
    assert_eq!(
        challenge_reply().step(&response(0x01, "{}"), 4).unwrap_err(),
        Error::Other("device never returned a CHALLENGE response".to_string())
    );
}

#[test]
fn a_reply_must_hold_the_text() {
    assert_eq!(
        serial_reply().step(&response(0x01, "{ \"sn\": 5 }"), 1).unwrap_err(),
        Error::Other("VERSION missing .sn: {\"sn\":5}".to_string())
    );
    assert_eq!(
        challenge_reply().step(&response(0x12, "[1, 2]"), 1).unwrap_err(),
        Error::Other("challenge response missing .response string: [1,2]".to_string())
    );
}

#[test]
fn a_reply_must_be_json() {
    assert_eq!(
        serial_reply().step(&response(0x01, ""), 1).unwrap_err(),
        Error::Other(
            "VERSION response not JSON: EOF while parsing a value at line 1 column 0".to_string()
        )
    );
    assert_eq!(
        challenge_reply().step(&response(0x12, "nul"), 1).unwrap_err(),
        Error::Other(
            "challenge response not JSON: EOF while parsing a value at line 1 column 3".to_string()
        )
    );
}

#[test]
fn a_cut_frame_is_no_reply() {
    assert_eq!(
        serial_reply().step(&[0x09, 0x00, 0x05], 1).unwrap_err(),
        Error::FrameTruncated { expected: 11, got: 3 }
    );
}

#[test]
fn challenges_keep_their_bits() {
    assert_eq!(read_challenge("0").unwrap(), 0);
    assert_eq!(read_challenge("7fffffff").unwrap(), 2147483647);
    assert_eq!(read_challenge("80000000").unwrap(), -2147483648);
    assert_eq!(read_challenge("FFFFFFFF").unwrap(), -1);
    assert_eq!(read_challenge("+dEadbeef").unwrap(), -559038737);
    assert_eq!(read_challenge("0000000000000001").unwrap(), 1);
}

#[test]
fn challenges_are_hexadecimal() {
    let failure = |hex: &str| read_challenge(hex).unwrap_err().message();
    assert_eq!(failure(""), "challenge hex parse: cannot parse integer from empty string");
    assert_eq!(failure("0x10"), "challenge hex parse: invalid digit found in string");
    assert_eq!(failure("-1"), "challenge hex parse: invalid digit found in string");
    assert_eq!(failure("+"), "challenge hex parse: invalid digit found in string");
    assert_eq!(failure("100000000"), "challenge hex parse: number too large to fit in target type");
}

#[test]
fn failures_to_read_are_worded_as_in_std() {
    for hex in ["", "g", "+", "-", "1ffffffff", "ffffffffg", "fffffffffg", "é"] {
        let expected = u32::from_str_radix(hex, 16).unwrap_err();
        assert_eq!(
            read_challenge(hex).unwrap_err().message(),
            format!("challenge hex parse: {}", expected)
        );
    }
}

#[test]
fn the_service_is_sent_the_serial_number() {
    assert_eq!(challenge_request("s\"n").to_string(), "{\"device_id\":\"s\\\"n\"}");
    assert_eq!(
        login_request("sn", "ff").to_string(),
        "{\"device_id\":\"sn\",\"challenge_response\":\"ff\"}"
    );
}

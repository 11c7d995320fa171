use serde_json::Value;
use stemplayer::commands::{closed_json, sub, Cmd04, FilePushType};
use stemplayer::device::AsFrame;

fn parse(text: &str) -> Value {
    serde_json::from_str(text).unwrap()
}

#[test]
fn bare_command_is_one_byte() {
    let frame = Cmd04::bare(sub::GET_TRACKS_INFO).as_frame();
    assert_eq!(frame.encode().unwrap(), vec![0x02, 0x00, 0x04, 0x03]);
}

#[test]
fn selecting_an_album() {
    let cmd = Cmd04::select_album("A1").unwrap();
    assert_eq!(cmd.sub, 0x05);
    assert_eq!(cmd.payload, b"{\"album\":\"A1\"}\0".to_vec());
    assert_eq!(cmd.as_frame().encode().unwrap()[..4], [0x11, 0x00, 0x04, 0x05]);
}

#[test]
fn selecting_a_track() {
    let cmd = Cmd04::select_track("A1", "T12").unwrap();
    assert_eq!(cmd.sub, 0x06);
    assert_eq!(cmd.payload, b"{\"album\":\"A1\",\"track\":\"T12\"}\0".to_vec());
}

#[test]
fn adding_and_deleting() {
    let add = Cmd04::add_album("A5").unwrap();
    assert_eq!((add.sub, add.payload), (0x08, b"{\"album\":\"A5\"}\0".to_vec()));
    let album = Cmd04::delete_album("A6").unwrap();
    assert_eq!((album.sub, album.payload), (0x09, b"{\"album\":\"A6\"}\0".to_vec()));
    let track = Cmd04::delete_track("A6", "T1").unwrap();
    assert_eq!(
        (track.sub, track.payload),
        (0x0a, b"{\"album\":\"A6\",\"track\":\"T1\"}\0".to_vec())
    );
}

#[test]
fn challenges_are_numbers() {
    let cmd = Cmd04::challenge(-2147483648).unwrap();
    assert_eq!(cmd.sub, 0x12);
    assert_eq!(cmd.payload, b"{\"challenge\":-2147483648}\0".to_vec());
    assert_eq!(Cmd04::challenge(7).unwrap().payload, b"{\"challenge\":7}\0".to_vec());
}

#[test]
fn texts_are_escaped() {
    let cmd = Cmd04::add_album("a\"b\\c\u{8}\u{c}\n\r\t\u{1}\u{1f}/é").unwrap();
    assert_eq!(
        cmd.payload,
        "{\"album\":\"a\\\"b\\\\c\\b\\f\\n\\r\\t\\u0001\\u001f/é\"}\0".as_bytes().to_vec()
    );
}

#[test]
fn a_nul_in_a_text_does_not_close_the_payload() {
    let payload = Cmd04::add_album("\0").unwrap().payload;
    assert_eq!(payload, b"{\"album\":\"\\u0000\"}\0".to_vec());
    assert_eq!(payload.iter().filter(|b| **b == 0).count(), 1);
}

#[test]
fn any_json_can_be_sent() {
    let v = parse("{\"z\": [1, -2, null, true, {}], \"a\": {\"b\": []}}");
    let cmd = Cmd04::with_json(0x10, &v).unwrap();
    assert_eq!(cmd.sub, 0x10);
    assert_eq!(cmd.payload, b"{\"z\":[1,-2,null,true,{}],\"a\":{\"b\":[]}}\0".to_vec());
    assert_eq!(closed_json(&v).unwrap(), cmd.payload);
}

#[test]
fn a_payload_is_optional() {
    let v = parse("{\"x\": 1}");
    let with = Cmd04::with_optional_json(0x02, Some(&v)).unwrap();
    assert_eq!((with.sub, with.payload), (0x02, b"{\"x\":1}\0".to_vec()));
    let without = Cmd04::with_optional_json(0x02, None).unwrap();
    assert_eq!((without.sub, without.payload), (0x02, Vec::new()));
}

#[test]
fn file_types_have_names() {
    assert_eq!(FilePushType::DeviceConfig.as_str(), "device-config");
    assert_eq!(FilePushType::Dfu.as_str(), "dfu");
    assert_eq!(FilePushType::Track.as_str(), "track");
    assert_eq!(FilePushType::Other("cover".to_string()).as_str(), "cover");
}

#[test]
fn file_types_are_known_by_name() {
    assert!(matches!(FilePushType::from_name("device-config"), FilePushType::DeviceConfig));
    assert!(matches!(FilePushType::from_name("dfu"), FilePushType::Dfu));
    assert!(matches!(FilePushType::from_name("track"), FilePushType::Track));
    match FilePushType::from_name("Track") {
        FilePushType::Other(name) => assert_eq!(name, "Track"),
        other => panic!("{:?}", other),
    }
}

#[test]
fn sub_commands_have_their_bytes() {
    assert_eq!(sub::REBOOT, 0x00);
    assert_eq!(sub::VERSION, 0x01);
    assert_eq!(sub::GET_ALBUM_CONFIG, 0x05);
    assert_eq!(sub::CHALLENGE, 0x12);
    assert_eq!(sub::SESSION_BEGIN, sub::REBOOT);
    assert_eq!(sub::SESSION_END, sub::GET_STORAGE_INFO);
}

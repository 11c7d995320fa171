use stemplayer::device::{
    ack_step, connect_frame, disconnect_frame, find_devices, first_device, response_payload,
    select_device, AckStep, AsFrame, DeviceInfo, STEM_PLAYER_PID, STEM_PLAYER_VID,
};
use stemplayer::error::Error;
use stemplayer::frame::Frame;

fn device(vendor_id: u16, product_id: u16, serial: Option<&str>) -> DeviceInfo {
    DeviceInfo {
        vendor_id,
        product_id,
        manufacturer: Some("Kano".to_string()),
        product: None,
        serial: serial.map(|s| s.to_string()),
    }
}

fn player(serial: Option<&str>) -> DeviceInfo {
    device(STEM_PLAYER_VID, STEM_PLAYER_PID, serial)
}

#[test]
fn only_stem_players_are_found() {
    let found = find_devices(vec![
        device(0x1209, 0x0001, None),
        player(Some("one")),
        device(0x0001, 0x572a, None),
        player(Some("two")),
    ]);
    assert_eq!(found, vec![player(Some("one")), player(Some("two"))]);
    assert_eq!((STEM_PLAYER_VID, STEM_PLAYER_PID), (0x1209, 0x572a));
}

#[test]
fn the_first_device_is_taken() {
    assert_eq!(first_device(vec![player(Some("a")), player(None)]), Ok(player(Some("a"))));
    assert_eq!(first_device(vec![]), Err("No Stem Player found".to_string()));
}

#[test]
fn a_device_is_selected_by_its_serial() {
    let listed = vec![device(1, 2, Some("b")), player(None), player(Some("a")), player(Some("b"))];
    assert_eq!(select_device(&listed, &player(Some("b"))), Ok(3));
    assert_eq!(select_device(&listed, &player(Some("c"))), Err(Error::NotFound));
    assert_eq!(select_device(&listed, &player(None)), Ok(1));
    assert_eq!(select_device(&vec![], &player(None)), Err(Error::NotFound));
}

#[test]
fn sessions_open_and_close() {
    assert_eq!(connect_frame().encode().unwrap(), vec![0x01, 0x00, 0x02]);
    assert_eq!(disconnect_frame().encode().unwrap(), vec![0x01, 0x00, 0x03]);
}

#[test]
fn a_response_is_its_payload() {
    assert_eq!(response_payload(&[0x03, 0x00, 0x05, 0x01, 0x7b]), Ok(vec![0x01, 0x7b]));
    assert_eq!(
        response_payload(&[0x03]),
        Err(Error::FrameTruncated { expected: 3, got: 1 })
    );
}

#[test]
fn acknowledgements_are_recognised() {
    assert!(matches!(ack_step(&[0x01, 0x00, 0x00]), Ok(AckStep::Done)));
    assert!(matches!(ack_step(&[0x02, 0x00, 0x01, 0x02]), Ok(AckStep::Done)));
    assert!(matches!(ack_step(&[0x01, 0x00, 0x08]), Ok(AckStep::ReadOn)));
    match ack_step(&[0x02, 0x00, 0x05, 0x06]) {
        Ok(AckStep::Answer(frame)) => {
            assert_eq!(frame.encode().unwrap(), vec![0x01, 0x00, 0x00])
        }
        other => panic!("{:?}", other),
    }
    assert_eq!(
        ack_step(&[0x05, 0x00, 0x00]).unwrap_err(),
        Error::FrameTruncated { expected: 7, got: 3 }
    );
}

#[test]
fn a_frame_is_sent_as_it_is() {
    let frame = Frame::new(0x08, vec![1, 2]);
    assert_eq!(frame.as_frame(), frame);
}

/// How many of the frames are read until the wait is over, and how it ends.
fn wait(frames: &[&[u8]]) -> (usize, Option<Result<usize, Error>>) {
    let mut answered = 0;
    for (i, frame) in frames.iter().enumerate() {
        match ack_step(frame) {
            Ok(AckStep::Done) => return (i + 1, Some(Ok(answered))),
            Ok(AckStep::Answer(_)) => answered += 1,
            Ok(AckStep::ReadOn) => {}
            Err(e) => return (i + 1, Some(Err(e))),
        }
    }
    (frames.len(), None)
}

#[test]
fn a_wait_ends_with_the_first_acknowledgement() {
    let ack: &[u8] = &[0x01, 0x00, 0x00];
    let nak: &[u8] = &[0x02, 0x00, 0x01, 0x02];
    let bare_nak: &[u8] = &[0x01, 0x00, 0x01];
    let response: &[u8] = &[0x02, 0x00, 0x05, 0x06];
    let other: &[u8] = &[0x01, 0x00, 0x08];
    let cut: &[u8] = &[0x05, 0x00, 0x00];
    let error = Error::FrameTruncated { expected: 7, got: 3 };
    assert_eq!(wait(&[ack, other]), (1, Some(Ok(0))));
    assert_eq!(wait(&[bare_nak]), (1, Some(Ok(0))));
    assert_eq!(wait(&[response, ack, ack]), (2, Some(Ok(1))));
    assert_eq!(wait(&[other, response, other, nak, ack]), (4, Some(Ok(1))));
    assert_eq!(wait(&[other, cut, ack]), (2, Some(Err(error))));
    assert_eq!(wait(&[response, other]), (2, None));
}

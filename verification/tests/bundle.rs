use stemplayer::bundle::{
    album_config_body, push_track_bundle, track_config_body, PushStep, Stage, TrackBundle,
};

fn bundle() -> TrackBundle<'static> {
    TrackBundle {
        album_id: "a5",
        album_title: "Album",
        track_id: "T1",
        track_title: "Track",
        global_id: "00000000-0000-0000-0000-000087654321",
        artist: "Artist",
        timestamp: "2026-05-06 11:00:00",
        other: &[1],
        vocals: &[2, 2],
        bass: &[3, 3, 3],
        drums: &[],
    }
}

fn headers(steps: &[PushStep]) -> Vec<String> {
    steps
        .iter()
        .filter_map(|step| match step {
            PushStep::Send(frame) if frame.op == 0x06 => {
                Some(String::from_utf8(frame.payload[..frame.payload.len() - 1].to_vec()).unwrap())
            }
            _ => None,
        })
        .collect()
}

#[test]
fn an_album_is_configured_as_captured() {
    let body = album_config_body(
        "A5",
        "00000000-0000-0000-0000-000087654321",
        "OTHER",
        "OTHER",
    )
    .unwrap();
    assert_eq!(body.len(), 148);
    assert_eq!(
        String::from_utf8(body).unwrap(),
        "{\n  \"id\": \"A5\",\n  \"global_id\": \"00000000-0000-0000-0000-000087654321\",\n  \
         \"artist\": \"OTHER\",\n  \"title\": \"OTHER\",\n  \"version\": \"1\",\n  \
         \"tracks\": null\n}"
    );
}

#[test]
fn album_identifiers_are_capitals() {
    let body = String::from_utf8(album_config_body("a5ß", "", "", "").unwrap()).unwrap();
    assert!(body.starts_with("{\n  \"id\": \"A5SS\",\n"));
}

#[test]
fn a_track_is_configured() {
    let body = track_config_body("Ar", "Ti", "id", "2026-05-06 11:00:00").unwrap();
    assert_eq!(
        String::from_utf8(body).unwrap(),
        "{\n  \"TrackColour\": [\n    \"#E03E3E\",\n    \"#FFFFFF\"\n  ],\n  \"tempos\": [\n    \
         {\n      \"time_ms\": 0,\n      \"tempo_bpm\": 120\n    }\n  ],\n  \"TrackGain_dB\": 0,\n  \
         \"metadata\": {\n    \"artist\": \"Ar\",\n    \"title\": \"Ti\",\n    \
         \"global_id\": \"id\",\n    \"meta_version\": \"1\",\n    \"stems_version\": \"1\",\n    \
         \"timestamp\": \"2026-05-06 11:00:00\"\n  }\n}"
    );
}

#[test]
fn six_files_go_out_in_order() {
    let b = bundle();
    let steps = push_track_bundle(&b).unwrap();
    let album = album_config_body(b.album_id, b.global_id, b.artist, b.album_title).unwrap();
    let track = track_config_body(b.artist, b.track_title, b.global_id, b.timestamp).unwrap();
    assert_eq!(
        headers(&steps),
        vec![
            format!("{{\"size\":{},\"type\":\"album-config\",\"album\":\"a5\"}}", album.len()),
            "{\"size\":2,\"type\":\"stem-audio-mp3\",\"track\":\"t1\",\"album\":\"a5\",\"stem\":2}"
                .to_string(),
            "{\"size\":3,\"type\":\"stem-audio-mp3\",\"track\":\"t1\",\"album\":\"a5\",\"stem\":3}"
                .to_string(),
            "{\"size\":0,\"type\":\"stem-audio-mp3\",\"track\":\"t1\",\"album\":\"a5\",\"stem\":4}"
                .to_string(),
            "{\"size\":1,\"type\":\"stem-audio-mp3\",\"track\":\"t1\",\"album\":\"a5\",\"stem\":1}"
                .to_string(),
            format!(
                "{{\"size\":{},\"type\":\"track-config\",\"track\":\"t1\",\"album\":\"a5\"}}",
                track.len() + 1
            ),
        ]
    );
}

#[test]
fn the_configurations_are_the_first_and_the_last_body() {
    let b = bundle();
    let steps = push_track_bundle(&b).unwrap();
    let bodies: Vec<&[u8]> = steps
        .iter()
        .filter_map(|step| match step {
            PushStep::Send(frame) if frame.op == 0x07 => Some(&frame.payload[5..]),
            _ => None,
        })
        .collect();
    let album = album_config_body(b.album_id, b.global_id, b.artist, b.album_title).unwrap();
    let mut track = track_config_body(b.artist, b.track_title, b.global_id, b.timestamp).unwrap();
    track.push(0);
    assert_eq!(bodies, vec![&album[..], &[2, 2], &[3, 3, 3], &[1], &track[..]]);
}

#[test]
fn stages_and_pauses_come_between_the_files() {
    let shape: Vec<String> = push_track_bundle(&bundle())
        .unwrap()
        .iter()
        .filter_map(|step| match step {
            PushStep::Stage(stage) => Some(stage.label().to_string()),
            PushStep::Wait(ms) => Some(format!("{}", ms)),
            PushStep::Send(_) => None,
        })
        .collect();
    assert_eq!(
        shape,
        vec![
            "album-config", "250", "vocals", "250", "bass", "250", "drums", "250", "other", "250",
            "track-config", "done"
        ]
    );
}

#[test]
fn the_script_begins_with_a_stage_and_ends_with_one() {
    let steps = push_track_bundle(&bundle()).unwrap();
    assert!(matches!(steps.first(), Some(PushStep::Stage(Stage::AlbumConfig))));
    assert!(matches!(steps.last(), Some(PushStep::Stage(Stage::Done))));
}

use stemplayer::bundle::{PushStep, Stage};
use stemplayer::cache::CacheStep;
use stemplayer::stems::split_result;
use stemplayer::upload::{
    global_id, keep_song, new_album, reopen_failure, reopen_pause, slot_or_fallback, song_title,
    upload_song, work_dir_name, Notice, Stems,
};

#[test]
fn identifiers_are_hashes_of_the_name() {
    // FNV-1a of "" is cbf29ce484222325, of "a" af63dc4c8601ec8c, of "foobar"
    // 85944171f73967e8.
    assert_eq!(global_id(""), "00000000-0000-0000-0000-9ce484222325");
    assert_eq!(global_id("a"), "00000000-0000-0000-0000-dc4c8601ec8c");
    assert_eq!(global_id("foobar"), "00000000-0000-0000-0000-4171f73967e8");
}

#[test]
fn identifiers_hash_the_bytes_of_the_name() {
    let mut hash: u64 = 0xcbf29ce484222325;
    for b in "Für Elise · 2".bytes() {
        hash ^= b as u64;
        hash = hash.wrapping_mul(0x100000001b3);
    }
    let expected = format!("00000000-0000-0000-0000-{:012x}", hash & 0xffffffffffff);
    assert_eq!(global_id("Für Elise · 2"), expected);
    assert_eq!(expected.len(), 36);
}

#[test]
fn short_hashes_are_padded() {
    for n in 0..2000 {
        let id = global_id(&format!("song {}", n));
        assert_eq!(id.len(), 36);
        assert!(id[24..].bytes().all(|b| b.is_ascii_hexdigit()));
    }
}

#[test]
fn songs_are_titled_by_their_files() {
    assert_eq!(song_title("/music/My song.flac"), "My song");
    assert_eq!(song_title("a.b.mp3"), "a.b");
    assert_eq!(song_title("/music/.."), "Untitled");
    assert_eq!(song_title(""), "Untitled");
    assert_eq!(work_dir_name(1767225600), "stemplayer-mgr-1767225600");
    assert_eq!(work_dir_name(0), "stemplayer-mgr-0");
}

#[test]
fn a_slot_is_always_had() {
    assert_eq!(slot_or_fallback(Ok("A7".to_string())), "A7");
    assert_eq!(slot_or_fallback(Err("missing l array".to_string())), "A10");
}

#[test]
fn an_upload_gets_an_album_of_its_own() {
    let made = |listing: Option<&[u8]>| {
        let album = new_album(listing).unwrap();
        assert_eq!(album.create.sub, 0x08);
        assert_eq!(
            album.create.payload,
            format!("{{\"album\":\"{}\"}}\0", album.slot).into_bytes()
        );
        album.slot
    };
    assert_eq!(made(Some(b"\x03{\"l\":[{\"a\":\"A5\"},{\"a\":\"A1\"}]}\0")), "A6");
    assert_eq!(made(Some(b"\x03{\"l\":[]}")), "A5");
    assert_eq!(made(Some(b"\x03{}\0")), "A10");
    assert_eq!(made(Some(b"")), "A10");
    assert_eq!(made(None), "A10");
    let all: Vec<String> = (5..100).map(|n| format!("{{\"a\":\"A{}\"}}", n)).collect();
    let full = format!("\x03{{\"l\":[{}]}}", all.join(","));
    assert_eq!(made(Some(full.as_bytes())), "A10");
}

#[test]
fn the_device_is_waited_for() {
    assert_eq!(reopen_pause(0), Some(750));
    assert_eq!(reopen_pause(14999), Some(750));
    assert_eq!(reopen_pause(15000), None);
    assert_eq!(
        reopen_failure("/tmp/x", "gone"),
        "device didn't come back online after split. Tap any button on the Stem Player and click \
         Connect, then run split-and-push again. (stems are saved at /tmp/x so you don't have to \
         re-split.) Underlying: gone"
    );
}

#[test]
fn the_user_is_told() {
    let told = |n: Notice| format!("{} {} {}", n.phase(), n.percent(), n.message("A7"));
    assert_eq!(told(Notice::Preparing), "preparing 1 Preparing…");
    assert_eq!(told(Notice::Splitting), "splitting 5 Splitting song into stems…");
    assert_eq!(told(Notice::StemsReady), "splitting 60 Stems ready");
    assert_eq!(told(Notice::Reopening), "reopening 62 Reconnecting to device…");
    assert_eq!(told(Notice::CreatingSlot), "creating-slot 66 Creating album slot A7…");
    assert_eq!(told(Notice::Pushing(Stage::AlbumConfig)), "pushing 70 Uploading album info…");
    assert_eq!(told(Notice::Pushing(Stage::Vocals)), "pushing 76 Uploading vocals…");
    assert_eq!(told(Notice::Pushing(Stage::Bass)), "pushing 82 Uploading bass…");
    assert_eq!(told(Notice::Pushing(Stage::Drums)), "pushing 88 Uploading drums…");
    assert_eq!(told(Notice::Pushing(Stage::Other)), "pushing 94 Uploading other…");
    assert_eq!(told(Notice::Pushing(Stage::TrackConfig)), "pushing 98 Finalizing on device…");
    assert_eq!(told(Notice::Pushing(Stage::Done)), "pushing 100 Done");
    assert_eq!(told(Notice::Done), "done 100 Done");
}

#[test]
fn the_bar_never_goes_back() {
    let stems = Stems { other: &[1], vocals: &[2], bass: &[3], drums: &[4] };
    let steps = upload_song("A7", "Song", "Song", &stems, 0).unwrap();
    let mut last = Notice::CreatingSlot.percent();
    for step in steps {
        if let PushStep::Stage(stage) = step {
            let now = Notice::Pushing(stage).percent();
            assert!(last < now);
            last = now;
        }
    }
    assert_eq!(last, 100);
}

#[test]
fn an_upload_carries_the_song() {
    let stems = Stems { other: &[1], vocals: &[2], bass: &[3], drums: &[4] };
    let steps = upload_song("A7", "My title", "a", &stems, 86399).unwrap();
    let bodies: Vec<String> = steps
        .iter()
        .filter_map(|step| match step {
            PushStep::Send(frame) if frame.op == 0x07 => {
                Some(String::from_utf8_lossy(&frame.payload[5..]).to_string())
            }
            _ => None,
        })
        .collect();
    assert_eq!(bodies.len(), 6);
    assert!(bodies[0].contains("\"id\": \"A7\""));
    assert!(bodies[0].contains("\"title\": \"My title\""));
    assert!(bodies[0].contains("\"artist\": \"Katika upload\""));
    assert!(bodies[0].contains("00000000-0000-0000-0000-dc4c8601ec8c"));
    assert!(bodies[5].contains("\"timestamp\": \"1970-01-01 11:59:59\""));
    assert!(bodies[5].contains("\"title\": \"My title\""));
    assert!(bodies[5].ends_with("}\0"));
    let headers: Vec<String> = steps
        .iter()
        .filter_map(|step| match step {
            PushStep::Send(frame) if frame.op == 0x06 => {
                Some(String::from_utf8_lossy(&frame.payload).to_string())
            }
            _ => None,
        })
        .collect();
    assert!(headers.iter().all(|h| h.contains("\"album\":\"A7\"")));
    assert!(headers[1..].iter().all(|h| h.contains("\"track\":\"t1\"")));
}

#[test]
fn an_uploaded_song_is_kept() {
    let split = split_result("/w", "a");
    let steps = keep_song("/c", "A7", "My title", &split, "/music/a.flac", 86399);
    let dir = "/c/00000000-0000-0000-0000-dc4c8601ec8c";
    let told: Vec<String> = steps
        .into_iter()
        .map(|step| match step {
            CacheStep::MakeDir(dir) => dir,
            CacheStep::Copy(from, to) => format!("{} > {}", from, to),
            CacheStep::TryCopy(from, to) => format!("{} ? {}", from, to),
            CacheStep::Write(to, bytes) => format!("{}: {}", to, String::from_utf8(bytes).unwrap()),
        })
        .collect();
    assert_eq!(
        told,
        vec![
            dir.to_string(),
            format!("/w/htdemucs/a/vocals.mp3 > {}/vocals.mp3", dir),
            format!("/w/htdemucs/a/bass.mp3 > {}/bass.mp3", dir),
            format!("/w/htdemucs/a/drums.mp3 > {}/drums.mp3", dir),
            format!("/w/htdemucs/a/other.mp3 > {}/other.mp3", dir),
            format!("/music/a.flac ? {}/original.flac", dir),
            format!(
                "{}/track.json: {{\n  \"global_id\": \"{}\",\n  \"title\": \"My title\",\n  \
                 \"artist\": \"Katika upload\",\n  \"album_id\": \"A7\",\n  \
                 \"track_id\": \"t1\",\n  \"stamp\": \"1970-01-01 11:59:59\"\n}}",
                dir,
                global_id("a")
            ),
        ]
    );
}

use serde_json::Value;
use stemplayer::cache::{
    cache_root, cache_track, count_removed, delete_by_album, delete_by_album_track, find_original,
    get_track, list_tracks, read_track, sidecar, CacheEntry, CacheStep, CachedStemPaths, CachedTrack,
    Particulars,
};

fn particulars() -> Particulars<'static> {
    Particulars {
        global_id: "id-1",
        title: "A \"title\"",
        artist: "Katika upload",
        album_id: "A5",
        track_id: "t1",
        timestamp: "2026-05-06 11:00:00",
    }
}

fn entry(path: &str, sidecar: Option<Vec<u8>>) -> CacheEntry {
    CacheEntry { path: path.to_string(), is_dir: true, sidecar, has_mp3: false, names: vec![] }
}

fn track(global_id: &str, album_id: &str, track_id: &str) -> CachedTrack {
    let text = format!(
        "{{\"global_id\":\"{}\",\"album_id\":\"{}\",\"track_id\":\"{}\"}}",
        global_id, album_id, track_id
    );
    let v: Value = serde_json::from_str(&text).unwrap();
    read_track(&format!("/c/in {}", global_id), &v, None)
}

fn names(list: &[&str]) -> Vec<String> {
    list.iter().map(|s| s.to_string()).collect()
}

#[test]
fn tracks_are_kept_below_the_home_directory() {
    assert_eq!(
        cache_root(Some("/Users/me")),
        "/Users/me/Library/Application Support/Katika/library"
    );
    assert_eq!(cache_root(None), "/tmp/Library/Application Support/Katika/library");
}

#[test]
fn particulars_are_written_one_to_a_line() {
    assert_eq!(
        String::from_utf8(sidecar(&particulars())).unwrap(),
        "{\n  \"global_id\": \"id-1\",\n  \"title\": \"A \\\"title\\\"\",\n  \
         \"artist\": \"Katika upload\",\n  \"album_id\": \"A5\",\n  \"track_id\": \"t1\",\n  \
         \"stamp\": \"2026-05-06 11:00:00\"\n}"
    );
}

fn kept(song: Option<&str>) -> Vec<String> {
    let p = particulars();
    let stems = CachedStemPaths { vocals: "v", bass: "b", drums: "d", other: "o" };
    cache_track(
        "/c", p.global_id, p.title, p.artist, p.album_id, p.track_id, p.timestamp, &stems, song,
    )
    .into_iter()
    .map(|step| match step {
        CacheStep::MakeDir(dir) => format!("make {}", dir),
        CacheStep::Copy(from, to) => format!("copy {} {}", from, to),
        CacheStep::TryCopy(from, to) => format!("try {} {}", from, to),
        CacheStep::Write(to, bytes) => {
            assert_eq!(bytes, sidecar(&p));
            format!("write {}", to)
        }
    })
    .collect()
}

#[test]
fn an_upload_is_kept_in_a_directory_of_its_own() {
    assert_eq!(
        kept(Some("/song.flac")),
        vec![
            "make /c/id-1",
            "copy v /c/id-1/vocals.mp3",
            "copy b /c/id-1/bass.mp3",
            "copy d /c/id-1/drums.mp3",
            "copy o /c/id-1/other.mp3",
            "try /song.flac /c/id-1/original.flac",
            "write /c/id-1/track.json",
        ]
    );
    assert_eq!(kept(Some("/song"))[5], "try /song /c/id-1/original.mp3");
    assert_eq!(kept(None).len(), 6);
}

#[test]
fn what_was_kept_is_listed() {
    let mut kept = entry("/c/id-1", Some(sidecar(&particulars())));
    kept.names = names(&["vocals.mp3", "original.flac"]);
    let tracks = list_tracks(&vec![kept]);
    assert_eq!(
        tracks,
        vec![CachedTrack {
            dir: "/c/id-1".to_string(),
            global_id: "id-1".to_string(),
            title: "A \"title\"".to_string(),
            artist: "Katika upload".to_string(),
            album_id: "A5".to_string(),
            track_id: "t1".to_string(),
            timestamp: "2026-05-06 11:00:00".to_string(),
            vocals: "/c/id-1/vocals.mp3".to_string(),
            bass: "/c/id-1/bass.mp3".to_string(),
            drums: "/c/id-1/drums.mp3".to_string(),
            other: "/c/id-1/other.mp3".to_string(),
            original: Some("/c/id-1/original.flac".to_string()),
        }]
    );
}

#[test]
fn what_is_no_track_is_passed_over() {
    let mut file = entry("/c/file", Some(b"{}".to_vec()));
    file.is_dir = false;
    let tracks = list_tracks(&vec![
        file,
        entry("/c/none", None),
        entry("/c/broken", Some(b"{".to_vec())),
        entry("/c/empty", Some(b"{\"title\": 3}".to_vec())),
        entry("/c/list", Some(b"[]".to_vec())),
    ]);
    assert_eq!(tracks.len(), 2);
    assert_eq!(tracks[0].vocals, "/c/empty/vocals.mp3");
    assert_eq!(tracks[0].title, "");
    assert_eq!(tracks[1].global_id, "");
}

#[test]
fn the_song_is_found() {
    let list = names(&["original", "xoriginal.mp3", "original.wav", "original.ogg"]);
    assert_eq!(find_original("/d", true, &list).as_deref(), Some("/d/original.mp3"));
    assert_eq!(find_original("/d", false, &list).as_deref(), Some("/d/original.wav"));
    assert_eq!(find_original("/d", false, &names(&["vocals.mp3", "original"])), None);
    assert_eq!(find_original("/d", false, &names(&["original."])).as_deref(), Some("/d/original."));
}

#[test]
fn a_track_is_found_by_its_identifier() {
    let tracks = vec![track("x", "A5", "t1"), track("y", "A6", "t1"), track("y", "A7", "t1")];
    assert_eq!(get_track(&tracks, "y").unwrap().album_id, "A6");
    assert!(get_track(&tracks, "z").is_none());
}

#[test]
fn deleted_tracks_are_removed() {
    let tracks = vec![
        track("x", "A5", "t1"),
        track("y", "A5", "T1"),
        track("z", "A5", "t2"),
        track("w", "a5", "t1"),
    ];
    assert_eq!(delete_by_album_track(&tracks, "A5", "T1"), vec!["/c/in x", "/c/in y"]);
    assert_eq!(delete_by_album_track(&tracks, "A5", "T3"), Vec::<String>::new());
    assert_eq!(delete_by_album(&tracks, "A5"), vec!["/c/in x", "/c/in y", "/c/in z"]);
    assert_eq!(delete_by_album(&tracks, "A9"), Vec::<String>::new());
}

#[test]
fn track_names_are_compared_in_small_letters() {
    let tracks = vec![track("x", "A5", "ÄSTRID")];
    assert_eq!(delete_by_album_track(&tracks, "A5", "ästrid"), vec!["/c/in x"]);
}

#[test]
fn keeping_again_writes_to_the_same_places() {
    assert_eq!(kept(Some("a.wav")), kept(Some("a.wav")));
}

#[test]
fn a_removal_reaches_the_directory_and_nothing_else() {
    let mut other = particulars();
    other.album_id = "A6";
    let tracks = list_tracks(&vec![
        entry("/c/nameless", Some(b"{\"album_id\":\"A5\"}".to_vec())),
        entry("/c/absolute", Some(b"{\"album_id\":\"A5\",\"global_id\":\"/\"}".to_vec())),
        entry("/c/id-1", Some(sidecar(&other))),
    ]);
    assert_eq!(tracks[0].global_id, "");
    assert_eq!(delete_by_album(&tracks, "A5"), vec!["/c/nameless", "/c/absolute"]);
    assert_eq!(delete_by_album_track(&tracks, "A6", "T1"), vec!["/c/id-1"]);
}

#[test]
fn only_removals_that_succeed_count() {
    assert_eq!(count_removed(&vec![true, false, true]), 2);
    assert_eq!(count_removed(&vec![false]), 0);
    assert_eq!(count_removed(&vec![]), 0);
}

#[test]
fn stamps_are_read_under_their_name() {
    let v: Value = serde_json::from_str("{\"stamp\":\"a\",\"timestamp\":\"b\"}").unwrap();
    assert_eq!(read_track("/d", &v, None).timestamp, "a");
}

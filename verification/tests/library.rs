use serde_json::Value;
use stemplayer::bundle::album_config_body;
use stemplayer::library::{
    album_ids, album_titles, is_user_slot, listed_albums, lowest_free_slot, parse_response_json,
    pick_fresh_album_slot, read_album_title, strip_reply, LibraryScan,
};

fn parse(text: &str) -> Value {
    serde_json::from_str(text).unwrap()
}

fn reply(sub: u8, text: &str) -> Vec<u8> {
    let mut out = vec![sub];
    out.extend_from_slice(text.as_bytes());
    out.push(0);
    out
}

const LISTING: &str = "{\"l\":[{\"a\":\"A1\",\"c\":[{\"t\":\"T1\"}]},{\"a\":\"RECORD\",\"c\":[]},\
                       {\"a\":\"A5\",\"c\":[{\"t\":\"T1\"},{\"t\":\"T2\"}]},{\"a\":\"A7\"},{}]}";

#[test]
fn a_reply_is_stripped() {
    assert_eq!(strip_reply(&[3, b'{', b'}', 0, 0]), b"{}");
    assert_eq!(strip_reply(&[]), b"");
    assert_eq!(strip_reply(&[0]), b"");
    assert_eq!(strip_reply(&[1, 0, b'a', 0]), b"\0a");
}

#[test]
fn replies_are_parsed() {
    assert_eq!(parse_response_json(&reply(3, "{\"l\": [1.5]}")).unwrap(), parse("{\"l\": [1.5]}"));
    assert_eq!(
        parse_response_json(&[]).unwrap_err(),
        "parse json: EOF while parsing a value at line 1 column 0"
    );
    assert_eq!(
        parse_response_json(&reply(3, "{} x")).unwrap_err(),
        "parse json: trailing characters at line 1 column 4"
    );
}

#[test]
fn the_listing_is_read() {
    let albums = listed_albums(&parse(LISTING)).unwrap();
    let ids: Vec<&str> = albums.iter().map(|a| a.id.as_str()).collect();
    assert_eq!(ids, vec!["A1", "RECORD", "A5", "A7", "?"]);
    assert_eq!(albums[2].tracks, vec![parse("{\"t\":\"T1\"}"), parse("{\"t\":\"T2\"}")]);
    assert!(albums[3].tracks.is_empty());
    assert!(albums.iter().all(|a| a.title.is_none() && a.artist.is_none()));
    assert_eq!(
        listed_albums(&parse("{\"l\": {}}")).unwrap_err(),
        "library payload missing `l` array"
    );
}

#[test]
fn user_slots_are_told_apart() {
    for id in ["A5", "A9", "A10", "A99", "A100", "A05", "A+7", "A4294967295"] {
        assert!(is_user_slot(id), "{}", id);
    }
    for id in ["A4", "A1", "RECORD", "?", "", "A", "A+", "A-7", "a5", "A5 ", "A4294967296", "B7"] {
        assert!(!is_user_slot(id), "{}", id);
    }
}

#[test]
fn titles_are_read_from_a_configuration() {
    let both = album_titles(&parse("{\"title\": \"Song\", \"artist\": \"Me\"}"));
    assert_eq!(both, (Some("Song".to_string()), Some("Me".to_string())));
    let placeholder = album_titles(&parse("{\"title\": \"OTHER\", \"artist\": \"Other\"}"));
    assert_eq!(placeholder, (None, Some("Other".to_string())));
    assert_eq!(album_titles(&parse("{\"title\": \"\", \"artist\": 3}")), (None, None));
    assert_eq!(album_titles(&parse("[]")), (None, None));
}

#[test]
fn titles_are_read_from_a_reply() {
    assert_eq!(
        read_album_title(&reply(5, "{\"title\": \"é\"}")).unwrap(),
        (Some("é".to_string()), None)
    );
    assert!(read_album_title(&reply(5, "{")).unwrap_err().starts_with("parse json: "));
}

#[test]
fn what_an_upload_writes_is_what_the_library_shows() {
    let body = album_config_body("A5", "id", "Katika upload", "My \"song\"\n").unwrap();
    let text = String::from_utf8(body).unwrap();
    assert_eq!(
        read_album_title(&reply(5, &text)).unwrap(),
        (Some("My \"song\"\n".to_string()), Some("Katika upload".to_string()))
    );
}

#[test]
fn a_scan_asks_for_the_titles_of_user_slots() {
    let mut scan = LibraryScan::start(&reply(3, LISTING)).unwrap();
    let first = scan.request().unwrap();
    assert_eq!((first.sub, first.payload), (0x05, b"{\"album\":\"A5\"}\0".to_vec()));
    scan.answer(Some(&reply(5, "{\"title\": \"Song\", \"artist\": \"Me\"}")));
    assert_eq!(scan.request().unwrap().payload, b"{\"album\":\"A7\"}\0".to_vec());
    scan.answer(None);
    assert!(scan.request().is_none());
    let albums = scan.finish();
    assert_eq!(albums.len(), 5);
    assert_eq!(albums[2].title.as_deref(), Some("Song"));
    assert_eq!(albums[2].artist.as_deref(), Some("Me"));
    assert_eq!(albums[2].tracks.len(), 2);
    assert!(albums[0].title.is_none() && albums[3].title.is_none());
}

#[test]
fn an_unreadable_configuration_leaves_the_album_untitled() {
    let mut scan = LibraryScan::start(&reply(3, "{\"l\":[{\"a\":\"A5\"}]}")).unwrap();
    assert!(scan.request().is_some());
    scan.answer(Some(&[5, b'?', 0]));
    assert!(scan.request().is_none());
    assert!(scan.finish()[0].title.is_none());
}

#[test]
fn a_scan_needs_a_listing() {
    assert_eq!(
        LibraryScan::start(&reply(3, "{}")).unwrap_err(),
        "library payload missing `l` array"
    );
    assert!(LibraryScan::start(&[]).unwrap_err().starts_with("parse json: "));
}

#[test]
fn the_known_slots_are_listed() {
    let ids = album_ids(&parse(LISTING)).unwrap();
    assert_eq!(ids, vec!["A1", "RECORD", "A5", "A7"]);
    assert_eq!(album_ids(&parse("{}")).unwrap_err(), "missing l array");
}

#[test]
fn the_lowest_free_slot_is_picked() {
    assert_eq!(pick_fresh_album_slot(&reply(3, LISTING)).unwrap(), "A6");
    assert_eq!(pick_fresh_album_slot(&reply(3, "{\"l\":[]}")).unwrap(), "A5");
    assert_eq!(pick_fresh_album_slot(&reply(3, "{\"l\":7}")).unwrap_err(), "missing l array");
    assert_eq!(
        pick_fresh_album_slot(&[3]).unwrap_err(),
        "library JSON parse: EOF while parsing a value at line 1 column 0"
    );
}

#[test]
fn a_full_device_has_no_free_slot() {
    let mut known: Vec<String> = (5..=99).map(|n| format!("A{}", n)).collect();
    assert_eq!(lowest_free_slot(&known).unwrap_err(), "no free album slot in A5..A99");
    known.retain(|id| id != "A42" && id != "A43");
    assert_eq!(lowest_free_slot(&known).unwrap(), "A42");
}

use stemplayer::enumerate::{read_answer, AlbumInfo, Answer, Enumeration};

const ACK: &[u8] = &[0x01, 0x00, 0x00];
const NAK: &[u8] = &[0x02, 0x00, 0x01, 0x02];

/// Walks a device whose albums hold so many tracks, and tells the commands. A
/// missing track is answered by `no`; from `lost_after` on nothing comes back.
fn walk(
    held: [usize; 4],
    no: Option<&[u8]>,
    lost_after: usize,
) -> (Vec<(u8, Vec<u8>)>, Option<Vec<AlbumInfo>>) {
    let mut sent = Vec::new();
    let mut walk = Enumeration::new();
    while let Some(cmd) = walk.request() {
        let reply = if sent.len() >= lost_after {
            None
        } else if cmd.sub == 0x06 {
            let text = String::from_utf8(cmd.payload.clone()).unwrap();
            let album: usize = text[11..12].parse().unwrap();
            let track: usize = text[24..text.len() - 3].parse().unwrap();
            if track <= held[album - 1] {
                Some(ACK)
            } else {
                no
            }
        } else {
            Some(ACK)
        };
        sent.push((cmd.sub, cmd.payload));
        walk.advance(reply);
    }
    (sent, walk.finish())
}

#[test]
fn a_walk_lists_the_tracks_of_every_slot() {
    let (sent, albums) = walk([2, 0, 1, 0], Some(NAK), 1000);
    let albums = albums.unwrap();
    let slots: Vec<&str> = albums.iter().map(|a| a.slot.as_str()).collect();
    assert_eq!(slots, vec!["A1", "A2", "A3", "A4"]);
    assert_eq!(albums[0].tracks, vec!["T1", "T2"]);
    assert!(albums[1].tracks.is_empty());
    assert_eq!(albums[2].tracks, vec!["T1"]);
    assert!(albums[3].tracks.is_empty());
    let subs: Vec<u8> = sent.iter().map(|s| s.0).collect();
    assert_eq!(subs, vec![0, 3, 5, 6, 6, 6, 5, 6, 5, 6, 6, 5, 6, 2]);
    assert_eq!(sent[2].1, b"{\"album\":\"A1\"}\0".to_vec());
    assert_eq!(sent[5].1, b"{\"album\":\"A1\",\"track\":\"T3\"}\0".to_vec());
}

#[test]
fn a_walk_stops_at_the_last_probe() {
    let (sent, albums) = walk([40, 40, 40, 40], Some(NAK), 1000);
    let albums = albums.unwrap();
    assert!(albums.iter().all(|a| a.tracks.len() == 32));
    assert_eq!(albums[3].tracks[31], "T32");
    assert_eq!(sent.len(), 135);
}

#[test]
fn a_lost_device_ends_the_walk() {
    assert!(walk([1, 1, 1, 1], Some(NAK), 0).1.is_none());
    assert!(walk([1, 1, 1, 1], Some(NAK), 1).1.is_none());
    assert!(walk([1, 1, 1, 1], Some(NAK), 2).1.is_none());
}

#[test]
fn a_device_lost_between_albums_ends_the_walk() {
    // The probe of the first track fails like that of a missing one; the next
    // album then fails for good.
    let (sent, albums) = walk([1, 1, 1, 1], Some(NAK), 3);
    assert!(albums.is_none());
    assert_eq!(sent.len(), 5);
}

#[test]
fn a_probe_ends_however_the_device_says_no() {
    let cut: &[u8] = &[0x09, 0x00, 0x05];
    for no in [Some(NAK), Some(cut), None] {
        let albums = walk([3, 1, 0, 2], no, 1000).1.unwrap();
        let counts: Vec<usize> = albums.iter().map(|a| a.tracks.len()).collect();
        assert_eq!(counts, vec![3, 1, 0, 2]);
    }
}

#[test]
fn refusals_only_end_probes() {
    let mut walk = Enumeration::new();
    walk.advance(Some(NAK));
    assert_eq!(walk.request().unwrap().sub, 0x03);
    walk.advance(Some(NAK));
    assert_eq!(walk.request().unwrap().sub, 0x05);
    walk.advance(Some(NAK));
    assert_eq!(walk.request().unwrap().sub, 0x06);
    walk.advance(Some(NAK));
    assert_eq!(walk.request().unwrap().payload, b"{\"album\":\"A2\"}\0".to_vec());
}

#[test]
fn answers_are_told_apart() {
    assert_eq!(read_answer(None), Answer::Missing);
    assert_eq!(read_answer(Some(&[0x01])), Answer::Missing);
    assert_eq!(read_answer(Some(NAK)), Answer::Refused);
    assert_eq!(read_answer(Some(ACK)), Answer::Given);
    assert_eq!(read_answer(Some(&[0x02, 0x00, 0x05, 0x06])), Answer::Given);
}

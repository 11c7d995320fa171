//! The copies of uploaded tracks that are kept on the host: where they are,
//! what is written there, and how they are listed, found and removed.
use crate::json::{
    as_str, from_slice, get, is_readable, is_simple, law_members_are_found, member, new_object,
    object, parsed, pretty_bytes, reads_as, text, text_at, to_vec_pretty, tree, value_at,
    with_member, Json,
};
use crate::paths::{extension, extension_in, join_path, law_join, path_join};
use crate::text::{
    chars_of, joined, lowercase, optional_text, same_text, texts, to_lowercase,
};
use serde_json::Value;
use vstd::prelude::*;

verus! {

/// A track that is kept on the host, in a directory of its own.
#[derive(Clone, Debug, PartialEq, Eq)]
pub struct CachedTrack {
    pub dir: String,
    pub global_id: String,
    pub title: String,
    pub artist: String,
    pub album_id: String,
    pub track_id: String,
    pub timestamp: String,
    pub vocals: String,
    pub bass: String,
    pub drums: String,
    pub other: String,
    pub original: Option<String>,
}

/// The texts of a track that is kept on the host.
pub ghost struct Cached {
    pub dir: Seq<char>,
    pub global_id: Seq<char>,
    pub title: Seq<char>,
    pub artist: Seq<char>,
    pub album_id: Seq<char>,
    pub track_id: Seq<char>,
    pub timestamp: Seq<char>,
    pub vocals: Seq<char>,
    pub bass: Seq<char>,
    pub drums: Seq<char>,
    pub other: Seq<char>,
    pub original: Option<Seq<char>>,
}

impl View for CachedTrack {
    type V = Cached;

    open spec fn view(&self) -> Cached {
        Cached {
            dir: self.dir@,
            global_id: self.global_id@,
            title: self.title@,
            artist: self.artist@,
            album_id: self.album_id@,
            track_id: self.track_id@,
            timestamp: self.timestamp@,
            vocals: self.vocals@,
            bass: self.bass@,
            drums: self.drums@,
            other: self.other@,
            original: optional_text(self.original),
        }
    }
}

/// The texts of some tracks.
pub open spec fn cached_tracks(tracks: Seq<CachedTrack>) -> Seq<Cached> {
    Seq::new(tracks.len(), |i: int| tracks[i]@)
}

/// The directory that all the kept tracks are in.
pub open spec fn root_path(home: Option<Seq<char>>) -> Seq<char> {
    path_join(
        match home {
            Some(home) => home,
            None => "/tmp"@,
        },
        "Library/Application Support/Katika/library"@,
    )
}

/// The directory that all the kept tracks are in: below the home directory,
/// where there is one.
pub fn cache_root(home: Option<&str>) -> (res: String)
    ensures
        res@ == root_path(
            match home {
                Some(h) => Some(h@),
                None => None,
            },
        ),
{
    match home {
        Some(home) => join_path(home, "Library/Application Support/Katika/library"),
        None => join_path("/tmp", "Library/Application Support/Katika/library"),
    }
}

/// Where the four stems of an upload are.
pub struct CachedStemPaths<'a> {
    pub vocals: &'a str,
    pub bass: &'a str,
    pub drums: &'a str,
    pub other: &'a str,
}

/// The paths of the four stems of an upload.
pub ghost struct StemPaths {
    pub vocals: Seq<char>,
    pub bass: Seq<char>,
    pub drums: Seq<char>,
    pub other: Seq<char>,
}

impl<'a> View for CachedStemPaths<'a> {
    type V = StemPaths;

    open spec fn view(&self) -> StemPaths {
        StemPaths {
            vocals: self.vocals@,
            bass: self.bass@,
            drums: self.drums@,
            other: self.other@,
        }
    }
}

/// What identifies an upload, and what it is called.
pub struct Particulars<'a> {
    pub global_id: &'a str,
    pub title: &'a str,
    pub artist: &'a str,
    pub album_id: &'a str,
    pub track_id: &'a str,
    pub timestamp: &'a str,
}

/// The texts of an upload's particulars.
#[verifier::ext_equal]
pub ghost struct Facts {
    pub global_id: Seq<char>,
    pub title: Seq<char>,
    pub artist: Seq<char>,
    pub album_id: Seq<char>,
    pub track_id: Seq<char>,
    pub timestamp: Seq<char>,
}

impl<'a> View for Particulars<'a> {
    type V = Facts;

    open spec fn view(&self) -> Facts {
        Facts {
            global_id: self.global_id@,
            title: self.title@,
            artist: self.artist@,
            album_id: self.album_id@,
            track_id: self.track_id@,
            timestamp: self.timestamp@,
        }
    }
}

impl Facts {
    /// Whether the particulars are read back as what they were written from.
    pub open spec fn reads_back(self) -> bool {
        reads_as(pretty_bytes(self.json()), self.json())
    }

    /// The particulars as JSON.
    pub open spec fn json(self) -> Json {
        Json::Object(
            seq![
                ("global_id"@, Json::Text(self.global_id)),
                ("title"@, Json::Text(self.title)),
                ("artist"@, Json::Text(self.artist)),
                ("album_id"@, Json::Text(self.album_id)),
                ("track_id"@, Json::Text(self.track_id)),
                ("stamp"@, Json::Text(self.timestamp)),
            ],
        )
    }
}

proof fn lemma_keys_differ()
    ensures
        "global_id"@ != "title"@,
        "global_id"@ != "artist"@,
        "global_id"@ != "album_id"@,
        "global_id"@ != "track_id"@,
        "global_id"@ != "stamp"@,
        "title"@ != "artist"@,
        "title"@ != "album_id"@,
        "title"@ != "track_id"@,
        "title"@ != "stamp"@,
        "artist"@ != "album_id"@,
        "artist"@ != "track_id"@,
        "artist"@ != "stamp"@,
        "album_id"@ != "track_id"@,
        "album_id"@ != "stamp"@,
        "track_id"@ != "stamp"@,
{
    reveal_strlit("global_id");
    reveal_strlit("title");
    reveal_strlit("artist");
    reveal_strlit("album_id");
    reveal_strlit("track_id");
    reveal_strlit("stamp");
    assert("global_id"@.len() == 9 && "title"@.len() == 5 && "artist"@.len() == 6);
    assert("album_id"@.len() == 8 && "track_id"@.len() == 8 && "stamp"@.len() == 5);
    assert("album_id"@[0] == 'a' && "track_id"@[0] == 't');
    assert("title"@[0] == 't' && "stamp"@[0] == 's');
}

/// Writes the particulars of an upload. They read back as what was written.
pub fn sidecar(p: &Particulars<'_>) -> (res: Vec<u8>)
    ensures
        res@ == pretty_bytes(p@.json()),
        reads_as(res@, p@.json()),
{
    proof {
        lemma_keys_differ();
    }
    let m = with_member(new_object(), "global_id", text(p.global_id));
    let m = with_member(m, "title", text(p.title));
    let m = with_member(m, "artist", text(p.artist));
    let m = with_member(m, "album_id", text(p.album_id));
    let m = with_member(m, "track_id", text(p.track_id));
    let m = with_member(m, "stamp", text(p.timestamp));
    let v: Value = object(m);
    assert(tree(v)->Object_0 =~= p@.json()->Object_0);
    assert(is_readable(p@.json())) by {
        reveal_with_fuel(is_simple, 2);
    }
    to_vec_pretty(&v).unwrap()
}

/// One thing to do on disk.
pub enum CacheStep {
    /// Make a directory, with those above it.
    MakeDir(String),
    /// Copy a file.
    Copy(String, String),
    /// Copy a file where that works.
    TryCopy(String, String),
    /// Write a file.
    Write(String, Vec<u8>),
}

/// One thing to do on disk, in texts and bytes.
pub ghost enum Deed {
    MakeDir(Seq<char>),
    Copy(Seq<char>, Seq<char>),
    TryCopy(Seq<char>, Seq<char>),
    Write(Seq<char>, Seq<u8>),
}

impl View for CacheStep {
    type V = Deed;

    open spec fn view(&self) -> Deed {
        match self {
            CacheStep::MakeDir(dir) => Deed::MakeDir(dir@),
            CacheStep::Copy(from, to) => Deed::Copy(from@, to@),
            CacheStep::TryCopy(from, to) => Deed::TryCopy(from@, to@),
            CacheStep::Write(to, bytes) => Deed::Write(to@, bytes@),
        }
    }
}

/// The deeds of some steps.
pub open spec fn deeds(steps: Seq<CacheStep>) -> Seq<Deed> {
    Seq::new(steps.len(), |i: int| steps[i]@)
}

/// The name that the song at this path is kept under.
pub open spec fn original_name(song: Seq<char>) -> Seq<char> {
    "original."@ + (match extension_in(song) {
        Some(ext) => ext,
        None => "mp3"@,
    })
}

fn write_original_name(song: &str) -> (res: String)
    ensures
        res@ == original_name(song@),
{
    match extension(song) {
        Some(ext) => joined("original.", ext.as_str()),
        None => joined("original.", "mp3"),
    }
}

/// What keeps an upload on the host: the directory, the four stems, the song,
/// and last the particulars, without which the directory is no track.
pub open spec fn keeping(
    root: Seq<char>,
    p: Facts,
    stems: StemPaths,
    original: Option<Seq<char>>,
) -> Seq<Deed> {
    let dir = path_join(root, p.global_id);
    seq![
        Deed::MakeDir(dir),
        Deed::Copy(stems.vocals, path_join(dir, "vocals.mp3"@)),
        Deed::Copy(stems.bass, path_join(dir, "bass.mp3"@)),
        Deed::Copy(stems.drums, path_join(dir, "drums.mp3"@)),
        Deed::Copy(stems.other, path_join(dir, "other.mp3"@)),
    ] + (match original {
        Some(song) => seq![Deed::TryCopy(song, path_join(dir, original_name(song)))],
        None => Seq::empty(),
    }) + seq![Deed::Write(path_join(dir, "track.json"@), pretty_bytes(p.json()))]
}

/// The steps that keep an upload on the host.
pub fn cache_track(
    root: &str,
    global_id: &str,
    title: &str,
    artist: &str,
    album_id: &str,
    track_id: &str,
    timestamp: &str,
    stems: &CachedStemPaths<'_>,
    original: Option<&str>,
) -> (res: Vec<CacheStep>)
    ensures
        deeds(res@) == keeping(
            root@,
            (Facts {
                global_id: global_id@,
                title: title@,
                artist: artist@,
                album_id: album_id@,
                track_id: track_id@,
                timestamp: timestamp@,
            }),
            stems@,
            match original {
                Some(song) => Some(song@),
                None => None,
            },
        ),
        (Facts {
            global_id: global_id@,
            title: title@,
            artist: artist@,
            album_id: album_id@,
            track_id: track_id@,
            timestamp: timestamp@,
        }).reads_back(),
{
    let p = Particulars { global_id, title, artist, album_id, track_id, timestamp };
    let dir: String = join_path(root, global_id);
    let dir: &str = dir.as_str();
    let mut out: Vec<CacheStep> = Vec::new();
    out.push(CacheStep::MakeDir(dir.to_owned()));
    out.push(CacheStep::Copy(stems.vocals.to_owned(), join_path(dir, "vocals.mp3")));
    out.push(CacheStep::Copy(stems.bass.to_owned(), join_path(dir, "bass.mp3")));
    out.push(CacheStep::Copy(stems.drums.to_owned(), join_path(dir, "drums.mp3")));
    out.push(CacheStep::Copy(stems.other.to_owned(), join_path(dir, "other.mp3")));
    if let Some(song) = original {
        let name: String = write_original_name(song);
        out.push(CacheStep::TryCopy(song.to_owned(), join_path(dir, name.as_str())));
    }
    out.push(CacheStep::Write(join_path(dir, "track.json"), sidecar(&p)));
    assert(deeds(out@) =~= keeping(
        root@,
        p@,
        stems@,
        match original {
            Some(song) => Some(song@),
            None => None,
        },
    ));
    out
}

/// The text of this name in the particulars, or none at all.
pub open spec fn particular(j: Json, key: Seq<char>) -> Seq<char> {
    match text_at(j, key) {
        Some(t) => t,
        None => Seq::empty(),
    }
}

fn read_particular(v: &Value, key: &str) -> (res: String)
    ensures
        res@ == particular(tree(*v), key@),
{
    if let Some(found) = get(v, key) {
        if let Some(t) = as_str(found) {
            return t.to_owned();
        }
    }
    String::new()
}

/// The track in a directory with these particulars.
pub open spec fn track_in(dir: Seq<char>, j: Json, original: Option<Seq<char>>) -> Cached {
    Cached {
        dir,
        global_id: particular(j, "global_id"@),
        title: particular(j, "title"@),
        artist: particular(j, "artist"@),
        album_id: particular(j, "album_id"@),
        track_id: particular(j, "track_id"@),
        timestamp: particular(j, "stamp"@),
        vocals: path_join(dir, "vocals.mp3"@),
        bass: path_join(dir, "bass.mp3"@),
        drums: path_join(dir, "drums.mp3"@),
        other: path_join(dir, "other.mp3"@),
        original,
    }
}

/// The track in a directory with these particulars. What is no text there is
/// left empty.
pub fn read_track(dir: &str, v: &Value, original: Option<String>) -> (res: CachedTrack)
    ensures
        res@ == track_in(dir@, tree(*v), optional_text(original)),
{
    CachedTrack {
        dir: dir.to_owned(),
        global_id: read_particular(v, "global_id"),
        title: read_particular(v, "title"),
        artist: read_particular(v, "artist"),
        album_id: read_particular(v, "album_id"),
        track_id: read_particular(v, "track_id"),
        timestamp: read_particular(v, "stamp"),
        vocals: join_path(dir, "vocals.mp3"),
        bass: join_path(dir, "bass.mp3"),
        drums: join_path(dir, "drums.mp3"),
        other: join_path(dir, "other.mp3"),
        original,
    }
}

/// Whether a text begins with another.
pub open spec fn begins_with(t: Seq<char>, head: Seq<char>) -> bool {
    head.len() <= t.len() && t.take(head.len() as int) == head
}

fn has_prefix(t: &str, head: &str) -> (res: bool)
    ensures
        res == begins_with(t@, head@),
{
    let whole: Vec<char> = chars_of(t);
    let front: Vec<char> = chars_of(head);
    if front.len() > whole.len() {
        return false;
    }
    let mut i: usize = 0;
    while i < front.len()
        invariant
            whole@ == t@,
            front@ == head@,
            i <= head@.len() <= t@.len(),
            forall|k: int| 0 <= k < i ==> t@[k] == head@[k],
        decreases head@.len() - i,
    {
        if whole[i] != front[i] {
            assert(t@.take(head@.len() as int)[i as int] != head@[i as int]);
            return false;
        }
        i = i + 1;
    }
    assert(t@.take(head@.len() as int) =~= head@);
    true
}

/// The first of some names that a song could be kept under.
pub open spec fn first_original(names: Seq<Seq<char>>) -> Option<Seq<char>>
    decreases names.len(),
{
    if names.len() == 0 {
        None
    } else if begins_with(names[0], "original."@) {
        Some(names[0])
    } else {
        first_original(names.drop_first())
    }
}

/// Where the song of a kept track is, given the names in its directory.
pub open spec fn original_path(
    dir: Seq<char>,
    has_mp3: bool,
    names: Seq<Seq<char>>,
) -> Option<Seq<char>> {
    if has_mp3 {
        Some(path_join(dir, "original.mp3"@))
    } else {
        match first_original(names) {
            Some(name) => Some(path_join(dir, name)),
            None => None,
        }
    }
}

/// Where the song of a kept track is: an MP3 file where there is one, else the
/// first file that bears the name.
pub fn find_original(dir: &str, has_mp3: bool, names: &Vec<String>) -> (res: Option<String>)
    ensures
        optional_text(res) == original_path(dir@, has_mp3, texts(names@)),
{
    if has_mp3 {
        return Some(join_path(dir, "original.mp3"));
    }
    let ghost all = texts(names@);
    let mut i: usize = 0;
    assert(all.skip(0) =~= all);
    while i < names.len()
        invariant
            i <= names@.len(),
            all == texts(names@),
            !has_mp3,
            first_original(all) == first_original(all.skip(i as int)),
        decreases names@.len() - i,
    {
        assert(all.skip(i as int).drop_first() =~= all.skip(i + 1));
        if has_prefix(names[i].as_str(), "original.") {
            return Some(join_path(dir, names[i].as_str()));
        }
        i = i + 1;
    }
    None
}

/// What is found under the directory of all tracks.
pub struct CacheEntry {
    /// Its path.
    pub path: String,
    /// Whether it is a directory.
    pub is_dir: bool,
    /// The particulars in it, where they can be read.
    pub sidecar: Option<Vec<u8>>,
    /// Whether an MP3 file of the song is in it.
    pub has_mp3: bool,
    /// The names of the files in it.
    pub names: Vec<String>,
}

impl CacheEntry {
    /// The track that the entry is, if it is one.
    pub open spec fn track(self) -> Option<Cached> {
        if !self.is_dir {
            None
        } else {
            match self.sidecar {
                None => None,
                Some(bytes) => match parsed(bytes@) {
                    Err(_) => None,
                    Ok(j) => Some(
                        track_in(
                            self.path@,
                            j,
                            original_path(self.path@, self.has_mp3, texts(self.names@)),
                        ),
                    ),
                },
            }
        }
    }

    /// The track that the entry is, if it is one.
    pub fn read(&self) -> (res: Option<CachedTrack>)
        ensures
            match self.track() {
                Some(t) => res is Some && res->0@ == t,
                None => res is None,
            },
    {
        if !self.is_dir {
            return None;
        }
        match &self.sidecar {
            None => None,
            Some(bytes) => match from_slice(bytes.as_slice()) {
                Err(_) => None,
                Ok(v) => {
                    let original: Option<String> = find_original(
                        self.path.as_str(),
                        self.has_mp3,
                        &self.names,
                    );
                    Some(read_track(self.path.as_str(), &v, original))
                },
            },
        }
    }
}

/// The tracks among some entries, in order.
pub open spec fn tracks_among(entries: Seq<CacheEntry>) -> Seq<Cached>
    decreases entries.len(),
{
    if entries.len() == 0 {
        Seq::empty()
    } else {
        match entries.last().track() {
            Some(t) => tracks_among(entries.drop_last()).push(t),
            None => tracks_among(entries.drop_last()),
        }
    }
}

/// The tracks among the entries under the directory of all tracks. Whatever is
/// no directory, or whose particulars cannot be read, is passed over.
pub fn list_tracks(entries: &Vec<CacheEntry>) -> (res: Vec<CachedTrack>)
    ensures
        cached_tracks(res@) == tracks_among(entries@),
{
    let mut out: Vec<CachedTrack> = Vec::new();
    let mut i: usize = 0;
    assert(cached_tracks(out@) =~= tracks_among(entries@.take(0)));
    while i < entries.len()
        invariant
            i <= entries@.len(),
            cached_tracks(out@) == tracks_among(entries@.take(i as int)),
        decreases entries@.len() - i,
    {
        let ghost known = out@;
        assert(entries@.take(i + 1).drop_last() =~= entries@.take(i as int));
        if let Some(t) = entries[i].read() {
            out.push(t);
            assert(cached_tracks(out@) =~= cached_tracks(known).push(t@));
        }
        i = i + 1;
    }
    assert(entries@.take(entries@.len() as int) =~= entries@);
    out
}

/// The first track with this identifier.
pub open spec fn track_with_id(tracks: Seq<Cached>, global_id: Seq<char>) -> Option<Cached>
    decreases tracks.len(),
{
    if tracks.len() == 0 {
        None
    } else if tracks[0].global_id == global_id {
        Some(tracks[0])
    } else {
        track_with_id(tracks.drop_first(), global_id)
    }
}

/// The first of some tracks with this identifier.
pub fn get_track<'a>(tracks: &'a Vec<CachedTrack>, global_id: &str) -> (res: Option<
    &'a CachedTrack,
>)
    ensures
        match track_with_id(cached_tracks(tracks@), global_id@) {
            Some(t) => res is Some && res->0@ == t && tracks@.contains(*res->0),
            None => res is None,
        },
{
    let ghost all = cached_tracks(tracks@);
    let mut i: usize = 0;
    assert(all.skip(0) =~= all);
    while i < tracks.len()
        invariant
            i <= tracks@.len(),
            all == cached_tracks(tracks@),
            track_with_id(all, global_id@) == track_with_id(all.skip(i as int), global_id@),
        decreases tracks@.len() - i,
    {
        assert(all.skip(i as int).drop_first() =~= all.skip(i + 1));
        if same_text(tracks[i].global_id.as_str(), global_id) {
            assert(tracks@.contains(tracks@[i as int]));
            return Some(&tracks[i]);
        }
        i = i + 1;
    }
    None
}

/// The directories of those of some tracks that are chosen.
pub open spec fn dirs_of(tracks: Seq<Cached>, chosen: spec_fn(Cached) -> bool) -> Seq<Seq<char>>
    decreases tracks.len(),
{
    if tracks.len() == 0 {
        Seq::empty()
    } else {
        let before = dirs_of(tracks.drop_last(), chosen);
        if chosen(tracks.last()) {
            before.push(tracks.last().dir)
        } else {
            before
        }
    }
}

/// The tracks of one album.
pub open spec fn of_album(album_id: Seq<char>) -> spec_fn(Cached) -> bool {
    |t: Cached| t.album_id == album_id
}

/// One track of one album, whatever the case of its name.
pub open spec fn of_album_track(
    album_id: Seq<char>,
    track_id: Seq<char>,
) -> spec_fn(Cached) -> bool {
    |t: Cached| t.album_id == album_id && lowercase(t.track_id) == lowercase(track_id)
}

/// The directories to remove when a track has left the device. There is one
/// for each kept copy of it.
pub fn delete_by_album_track(
    tracks: &Vec<CachedTrack>,
    album_id: &str,
    track_id: &str,
) -> (res: Vec<String>)
    ensures
        texts(res@) == dirs_of(
            cached_tracks(tracks@),
            of_album_track(album_id@, track_id@),
        ),
{
    let needle: String = to_lowercase(track_id);
    let ghost all = cached_tracks(tracks@);
    let ghost chosen = of_album_track(album_id@, track_id@);
    let mut out: Vec<String> = Vec::new();
    let mut i: usize = 0;
    assert(texts(out@) =~= dirs_of(all.take(0), chosen));
    while i < tracks.len()
        invariant
            i <= tracks@.len(),
            all == cached_tracks(tracks@),
            chosen == of_album_track(album_id@, track_id@),
            needle@ == lowercase(track_id@),
            texts(out@) == dirs_of(all.take(i as int), chosen),
        decreases tracks@.len() - i,
    {
        let ghost known = out@;
        assert(all.take(i + 1).drop_last() =~= all.take(i as int));
        if same_text(tracks[i].album_id.as_str(), album_id) && same_text(
            to_lowercase(tracks[i].track_id.as_str()).as_str(),
            needle.as_str(),
        ) {
            out.push(tracks[i].dir.as_str().to_owned());
            assert(texts(out@) =~= texts(known).push(all[i as int].dir));
        }
        i = i + 1;
    }
    assert(all.take(all.len() as int) =~= all);
    out
}

/// The directories to remove when an album has left the device. There is one
/// for each kept track of it.
pub fn delete_by_album(tracks: &Vec<CachedTrack>, album_id: &str) -> (res: Vec<String>)
    ensures
        texts(res@) == dirs_of(cached_tracks(tracks@), of_album(album_id@)),
{
    let ghost all = cached_tracks(tracks@);
    let ghost chosen = of_album(album_id@);
    let mut out: Vec<String> = Vec::new();
    let mut i: usize = 0;
    assert(texts(out@) =~= dirs_of(all.take(0), chosen));
    while i < tracks.len()
        invariant
            i <= tracks@.len(),
            all == cached_tracks(tracks@),
            chosen == of_album(album_id@),
            texts(out@) == dirs_of(all.take(i as int), chosen),
        decreases tracks@.len() - i,
    {
        let ghost known = out@;
        assert(all.take(i + 1).drop_last() =~= all.take(i as int));
        if same_text(tracks[i].album_id.as_str(), album_id) {
            out.push(tracks[i].dir.as_str().to_owned());
            assert(texts(out@) =~= texts(known).push(all[i as int].dir));
        }
        i = i + 1;
    }
    assert(all.take(all.len() as int) =~= all);
    out
}

/// How many of the removals succeeded.
pub open spec fn removed(outcomes: Seq<bool>) -> nat {
    outcomes.filter(|gone: bool| gone).len()
}

/// How many of the removals succeeded, given how each went.
pub fn count_removed(outcomes: &Vec<bool>) -> (res: usize)
    ensures
        res == removed(outcomes@),
{
    let mut count: usize = 0;
    let mut i: usize = 0;
    let ghost gone = |gone: bool| gone;
    proof {
        reveal(Seq::filter);
    }
    assert(outcomes@.take(0).filter(gone).len() == 0);
    while i < outcomes.len()
        invariant
            count <= i <= outcomes@.len(),
            gone == (|gone: bool| gone),
            count == outcomes@.take(i as int).filter(gone).len(),
        decreases outcomes@.len() - i,
    {
        proof {
            reveal(Seq::filter);
            assert(outcomes@.take(i + 1).drop_last() =~= outcomes@.take(i as int));
        }
        if outcomes[i] {
            count = count + 1;
        }
        i = i + 1;
    }
    assert(outcomes@.take(outcomes@.len() as int) =~= outcomes@);
    count
}

/// What is kept of an upload is what listing shows: an entry with the
/// particulars that were written is the track that was uploaded, in its
/// directory, with its stems where they were copied to. `entry.sidecar` is what
/// `cache_track` has written.
pub proof fn law_uploads_are_listed(root: Seq<char>, p: Facts, entry: CacheEntry)
    requires
        entry.is_dir,
        entry.path@ == path_join(root, p.global_id),
        entry.sidecar is Some,
        entry.sidecar->0@ == pretty_bytes(p.json()),
        p.reads_back(),
    ensures
        entry.track() is Some,
        entry.track()->0.dir == path_join(root, p.global_id),
        entry.track()->0.global_id == p.global_id,
        entry.track()->0.title == p.title,
        entry.track()->0.artist == p.artist,
        entry.track()->0.album_id == p.album_id,
        entry.track()->0.track_id == p.track_id,
        entry.track()->0.timestamp == p.timestamp,
        forall|stems: StemPaths, original: Option<Seq<char>>|
            #![trigger keeping(root, p, stems, original)]
            {
                let done = keeping(root, p, stems, original);
                let t = entry.track()->0;
                &&& done[1] == Deed::Copy(stems.vocals, t.vocals)
                &&& done[2] == Deed::Copy(stems.bass, t.bass)
                &&& done[3] == Deed::Copy(stems.drums, t.drums)
                &&& done[4] == Deed::Copy(stems.other, t.other)
            },
{
    lemma_keys_differ();
    let m = p.json()->Object_0;
    reveal_with_fuel(value_at, 7);
    let m1 = m.drop_first();
    let m2 = m1.drop_first();
    let m3 = m2.drop_first();
    let m4 = m3.drop_first();
    let m5 = m4.drop_first();
    assert(m1[0] == m[1] && m2[0] == m[2] && m3[0] == m[3] && m4[0] == m[4] && m5[0] == m[5]);
    assert(member(p.json(), "stamp"@) == Some(Json::Text(p.timestamp)));
}

/// What a deed writes to.
pub open spec fn target(deed: Deed) -> Seq<char> {
    match deed {
        Deed::MakeDir(dir) => dir,
        Deed::Copy(_, to) => to,
        Deed::TryCopy(_, to) => to,
        Deed::Write(to, _) => to,
    }
}

/// Keeping an upload again writes over what was kept under its identifier.
pub proof fn law_kept_again_in_place(
    root: Seq<char>,
    p: Facts,
    again: Facts,
    stems: StemPaths,
    new_stems: StemPaths,
    original: Option<Seq<char>>,
)
    requires
        p.global_id == again.global_id,
    ensures
        keeping(root, again, new_stems, original).len() == keeping(
            root,
            p,
            stems,
            original,
        ).len(),
        forall|i: int|
            0 <= i < keeping(root, p, stems, original).len() ==> target(
                #[trigger] keeping(root, again, new_stems, original)[i],
            ) == target(#[trigger] keeping(root, p, stems, original)[i]),
{
}

/// A track is listed wherever its entry stands among the others.
pub proof fn law_every_track_is_listed(entries: Seq<CacheEntry>, at: int)
    requires
        0 <= at < entries.len(),
        entries[at].track() is Some,
    ensures
        tracks_among(entries).contains(entries[at].track()->0),
    decreases entries.len(),
{
    let front = entries.drop_last();
    let all = tracks_among(entries);
    let t = entries[at].track()->0;
    if at < front.len() {
        law_every_track_is_listed(front, at);
        let k = tracks_among(front).index_of(t);
        assert(all[k] == t);
    } else {
        assert(all.last() == t);
    }
}

/// A song that was kept is found again, whatever its extension.
pub proof fn law_kept_song_is_found(
    dir: Seq<char>,
    has_mp3: bool,
    names: Seq<Seq<char>>,
    song: Seq<char>,
)
    requires
        names.contains(original_name(song)),
    ensures
        original_path(dir, has_mp3, names) is Some,
{
    let name = original_name(song);
    assert(name.take("original."@.len() as int) =~= "original."@);
    lemma_first_original(names, names.index_of(name));
}

proof fn lemma_first_original(names: Seq<Seq<char>>, at: int)
    requires
        0 <= at < names.len(),
        begins_with(names[at], "original."@),
    ensures
        first_original(names) is Some,
    decreases names.len(),
{
    if at > 0 {
        assert(names.drop_first()[at - 1] == names[at]);
        lemma_first_original(names.drop_first(), at - 1);
    }
}

/// A track is found by its identifier exactly when one of the tracks has it.
pub proof fn law_track_is_found(tracks: Seq<Cached>, global_id: Seq<char>)
    ensures
        track_with_id(tracks, global_id) is Some <==> exists|i: int|
            0 <= i < tracks.len() && (#[trigger] tracks[i]).global_id == global_id,
        track_with_id(tracks, global_id) is Some ==> track_with_id(
            tracks,
            global_id,
        )->0.global_id == global_id && tracks.contains(track_with_id(tracks, global_id)->0),
    decreases tracks.len(),
{
    if tracks.len() > 0 {
        let rest = tracks.drop_first();
        law_track_is_found(rest, global_id);
        if tracks[0].global_id != global_id {
            if track_with_id(tracks, global_id) is Some {
                let i = rest.index_of(track_with_id(tracks, global_id)->0);
                assert(tracks[i + 1] == rest[i]);
            }
            if exists|i: int| 0 <= i < tracks.len() && (#[trigger] tracks[i]).global_id
                == global_id {
                let i = choose|i: int|
                    0 <= i < tracks.len() && (#[trigger] tracks[i]).global_id == global_id;
                assert(rest[i - 1] == tracks[i]);
            }
        }
    }
}

/// A removal reaches the directory of every chosen track and no other, once
/// for each of them.
pub proof fn law_removes_just_the_chosen(
    tracks: Seq<Cached>,
    chosen: spec_fn(Cached) -> bool,
)
    ensures
        dirs_of(tracks, chosen).len() == tracks.filter(chosen).len(),
        forall|dir: Seq<char>| #[trigger]
            dirs_of(tracks, chosen).contains(dir) <==> exists|i: int|
                0 <= i < tracks.len() && chosen(#[trigger] tracks[i]) && dir == tracks[i].dir,
    decreases tracks.len(),
{
    reveal(Seq::filter);
    let dirs = dirs_of(tracks, chosen);
    if tracks.len() > 0 {
        let front = tracks.drop_last();
        let before = dirs_of(front, chosen);
        law_removes_just_the_chosen(front, chosen);
        assert forall|dir: Seq<char>| #[trigger] dirs.contains(dir) <==> exists|i: int|
            0 <= i < tracks.len() && chosen(#[trigger] tracks[i]) && dir == tracks[i].dir by {
            if dirs.contains(dir) {
                let k = dirs.index_of(dir);
                if k < before.len() {
                    assert(before[k] == dir);
                    assert(before.contains(dir));
                    let i = choose|i: int|
                        0 <= i < front.len() && chosen(#[trigger] front[i]) && dir == front[i].dir;
                    assert(tracks[i] == front[i]);
                } else {
                    assert(chosen(tracks[tracks.len() - 1]));
                }
            }
            if exists|i: int|
                0 <= i < tracks.len() && chosen(#[trigger] tracks[i]) && dir == tracks[i].dir {
                let i = choose|i: int|
                    0 <= i < tracks.len() && chosen(#[trigger] tracks[i]) && dir == tracks[i].dir;
                if i < front.len() {
                    assert(front[i] == tracks[i]);
                    assert(before.contains(dir));
                    let k = before.index_of(dir);
                    assert(dirs[k] == dir);
                } else {
                    assert(dirs.last() == dir);
                }
            }
        }
    }
}

/// As long as no two tracks share a directory, a removal leaves the directory of
/// every other track alone.
pub proof fn law_other_tracks_stay(
    tracks: Seq<Cached>,
    chosen: spec_fn(Cached) -> bool,
    other: int,
)
    requires
        0 <= other < tracks.len(),
        !chosen(tracks[other]),
        forall|i: int, j: int|
            0 <= i < j < tracks.len() ==> (#[trigger] tracks[i]).dir != (#[trigger] tracks[j]).dir,
    ensures
        !dirs_of(tracks, chosen).contains(tracks[other].dir),
{
    law_removes_just_the_chosen(tracks, chosen);
    let dir = tracks[other].dir;
    if dirs_of(tracks, chosen).contains(dir) {
        let i = choose|i: int|
            0 <= i < tracks.len() && chosen(#[trigger] tracks[i]) && dir == tracks[i].dir;
        assert(i != other);
        if i < other {
            assert(tracks[i].dir != tracks[other].dir);
        } else {
            assert(tracks[other].dir != tracks[i].dir);
        }
    }
}

/// Every listed track has the directory of an entry that is one, so a removal
/// never reaches anything else, such as the directory of all tracks.
pub proof fn law_tracks_have_their_entries_dirs(entries: Seq<CacheEntry>, at: int)
    requires
        0 <= at < tracks_among(entries).len(),
    ensures
        exists|i: int|
            0 <= i < entries.len() && (#[trigger] entries[i]).track() is Some
                && tracks_among(entries)[at].dir == entries[i].path@,
    decreases entries.len(),
{
    let front = entries.drop_last();
    if at < tracks_among(front).len() {
        law_tracks_have_their_entries_dirs(front, at);
        let i = choose|i: int|
            0 <= i < front.len() && (#[trigger] front[i]).track() is Some
                && tracks_among(front)[at].dir == front[i].path@;
        assert(entries[i] == front[i]);
    } else {
        assert(entries[entries.len() - 1].track() is Some);
    }
}

/// Removing an album reaches whatever removing one of its tracks reaches.
pub proof fn law_album_covers_its_tracks(
    tracks: Seq<Cached>,
    album_id: Seq<char>,
    track_id: Seq<char>,
    dir: Seq<char>,
)
    requires
        dirs_of(tracks, of_album_track(album_id, track_id)).contains(dir),
    ensures
        dirs_of(tracks, of_album(album_id)).contains(dir),
{
    let one = of_album_track(album_id, track_id);
    let all = of_album(album_id);
    law_removes_just_the_chosen(tracks, one);
    law_removes_just_the_chosen(tracks, all);
    let i = choose|i: int|
        0 <= i < tracks.len() && one(#[trigger] tracks[i]) && dir == tracks[i].dir;
    assert(all(tracks[i]));
}

/// All kept tracks are in one directory below the home directory, or below /tmp
/// where there is none.
pub proof fn law_where_tracks_are_kept(home: Seq<char>)
    ensures
        home.len() > 0 && home.last() != '/' ==> root_path(Some(home)) == home
            + "/Library/Application Support/Katika/library"@,
        root_path(None) == "/tmp/Library/Application Support/Katika/library"@,
{
    reveal_strlit("Library/Application Support/Katika/library");
    reveal_strlit("/Library/Application Support/Katika/library");
    reveal_strlit("/tmp");
    reveal_strlit("/");
    reveal_strlit("/tmp/Library/Application Support/Katika/library");
    assert(seq!['/'] + "Library/Application Support/Katika/library"@
        =~= "/Library/Application Support/Katika/library"@);
    law_join(home, "Library/Application Support/Katika/library"@);
    law_join("/tmp"@, "Library/Application Support/Katika/library"@);
    if home.len() > 0 && home.last() != '/' {
        assert(root_path(Some(home)) =~= home + "/Library/Application Support/Katika/library"@);
    }
    assert(root_path(None) =~= "/tmp/Library/Application Support/Katika/library"@);
}

proof fn lemma_names_below(dir: Seq<char>)
    requires
        dir.len() > 0,
        dir.last() != '/',
    ensures
        path_join(dir, "vocals.mp3"@) == dir + "/vocals.mp3"@,
        path_join(dir, "bass.mp3"@) == dir + "/bass.mp3"@,
        path_join(dir, "drums.mp3"@) == dir + "/drums.mp3"@,
        path_join(dir, "other.mp3"@) == dir + "/other.mp3"@,
        path_join(dir, "track.json"@) == dir + "/track.json"@,
        path_join(dir, "original.mp3"@) == dir + "/original.mp3"@,
{
    reveal_strlit("/");
    reveal_strlit("vocals.mp3");
    reveal_strlit("bass.mp3");
    reveal_strlit("drums.mp3");
    reveal_strlit("other.mp3");
    reveal_strlit("track.json");
    reveal_strlit("original.mp3");
    reveal_strlit("/vocals.mp3");
    reveal_strlit("/bass.mp3");
    reveal_strlit("/drums.mp3");
    reveal_strlit("/other.mp3");
    reveal_strlit("/track.json");
    reveal_strlit("/original.mp3");
    assert(path_join(dir, "vocals.mp3"@) =~= dir + "/vocals.mp3"@);
    assert(path_join(dir, "bass.mp3"@) =~= dir + "/bass.mp3"@);
    assert(path_join(dir, "drums.mp3"@) =~= dir + "/drums.mp3"@);
    assert(path_join(dir, "other.mp3"@) =~= dir + "/other.mp3"@);
    assert(path_join(dir, "track.json"@) =~= dir + "/track.json"@);
    assert(path_join(dir, "original.mp3"@) =~= dir + "/original.mp3"@);
}

/// Keeping an upload makes a directory named after its identifier and copies
/// each stem into it under its own name; the particulars are written last.
pub proof fn law_what_is_kept(
    root: Seq<char>,
    p: Facts,
    stems: StemPaths,
    original: Option<Seq<char>>,
)
    requires
        root.len() > 0,
        root.last() != '/',
        p.global_id.len() > 0,
        p.global_id[0] != '/',
        p.global_id.last() != '/',
    ensures
        ({
            let dir = root + "/"@ + p.global_id;
            let done = keeping(root, p, stems, original);
            &&& done.len() == (if original is Some {
                7int
            } else {
                6
            })
            &&& done[0] == Deed::MakeDir(dir)
            &&& done[1] == Deed::Copy(stems.vocals, dir + "/vocals.mp3"@)
            &&& done[2] == Deed::Copy(stems.bass, dir + "/bass.mp3"@)
            &&& done[3] == Deed::Copy(stems.drums, dir + "/drums.mp3"@)
            &&& done[4] == Deed::Copy(stems.other, dir + "/other.mp3"@)
            &&& original matches Some(song) ==> done[5] == Deed::TryCopy(
                song,
                dir + "/original."@ + (match extension_in(song) {
                    Some(ext) => ext,
                    None => "mp3"@,
                }),
            )
            &&& done.last() matches Deed::Write(to, bytes) && to == dir + "/track.json"@ && bytes
                == pretty_bytes(p.json())
        }),
{
    let dir = root + "/"@ + p.global_id;
    assert(path_join(root, p.global_id) == dir);
    lemma_names_below(dir);
    if let Some(song) = original {
        reveal_strlit("original.");
        reveal_strlit("/original.");
        reveal_strlit("/");
        let ext = match extension_in(song) {
            Some(ext) => ext,
            None => "mp3"@,
        };
        assert(path_join(dir, original_name(song)) =~= dir + "/original."@ + ext);
    }
}

/// The particulars are written each under its own name.
pub proof fn law_particulars_are_named(p: Facts)
    ensures
        member(p.json(), "global_id"@) == Some(Json::Text(p.global_id)),
        member(p.json(), "title"@) == Some(Json::Text(p.title)),
        member(p.json(), "artist"@) == Some(Json::Text(p.artist)),
        member(p.json(), "album_id"@) == Some(Json::Text(p.album_id)),
        member(p.json(), "track_id"@) == Some(Json::Text(p.track_id)),
        member(p.json(), "stamp"@) == Some(Json::Text(p.timestamp)),
{
    lemma_keys_differ();
    let m = p.json()->Object_0;
    law_members_are_found(m, 0);
    law_members_are_found(m, 1);
    law_members_are_found(m, 2);
    law_members_are_found(m, 3);
    law_members_are_found(m, 4);
    law_members_are_found(m, 5);
}

/// The particulars of a kept track are the texts under their names, and empty
/// where there is none; the files are those of its directory.
pub proof fn law_particulars_are_read(dir: Seq<char>, j: Json, original: Option<Seq<char>>)
    ensures
        ({
            let t = track_in(dir, j, original);
            &&& member(j, "global_id"@) matches Some(Json::Text(v)) ==> t.global_id == v
            &&& member(j, "title"@) matches Some(Json::Text(v)) ==> t.title == v
            &&& member(j, "artist"@) matches Some(Json::Text(v)) ==> t.artist == v
            &&& member(j, "album_id"@) matches Some(Json::Text(v)) ==> t.album_id == v
            &&& member(j, "track_id"@) matches Some(Json::Text(v)) ==> t.track_id == v
            &&& member(j, "stamp"@) matches Some(Json::Text(v)) ==> t.timestamp == v
            &&& member(j, "global_id"@) is None ==> t.global_id.len() == 0
            &&& member(j, "title"@) is None ==> t.title.len() == 0
            &&& member(j, "artist"@) is None ==> t.artist.len() == 0
            &&& member(j, "album_id"@) is None ==> t.album_id.len() == 0
            &&& member(j, "track_id"@) is None ==> t.track_id.len() == 0
            &&& member(j, "stamp"@) is None ==> t.timestamp.len() == 0
            &&& t.dir == dir
            &&& t.original == original
            &&& dir.len() > 0 && dir.last() != '/' ==> {
                &&& t.vocals == dir + "/vocals.mp3"@
                &&& t.bass == dir + "/bass.mp3"@
                &&& t.drums == dir + "/drums.mp3"@
                &&& t.other == dir + "/other.mp3"@
            }
        }),
{
    if dir.len() > 0 && dir.last() != '/' {
        lemma_names_below(dir);
    }
}

/// What is no text counts as nothing, whatever it is.
pub proof fn law_only_texts_are_particulars(j: Json, key: Seq<char>)
    ensures
        member(j, key) matches Some(v) ==> v !is Text ==> particular(j, key).len() == 0,
        member(j, key) is None ==> particular(j, key).len() == 0,
        member(j, key) matches Some(Json::Text(t)) ==> particular(j, key) == t,
{
}

/// The song of a kept track is the MP3 file where there is one, and else the
/// first file whose name begins with "original.".
pub proof fn law_which_song_is_found(dir: Seq<char>, names: Seq<Seq<char>>, at: int)
    requires
        dir.len() > 0,
        dir.last() != '/',
    ensures
        original_path(dir, true, names) == Some(dir + "/original.mp3"@),
        0 <= at < names.len() && "original."@.is_prefix_of(names[at]) && (forall|i: int|
            0 <= i < at ==> !"original."@.is_prefix_of(#[trigger] names[i])) ==> original_path(
            dir,
            false,
            names,
        ) == Some(dir + "/"@ + names[at]),
        (forall|i: int| 0 <= i < names.len() ==> !"original."@.is_prefix_of(#[trigger] names[i]))
            ==> original_path(dir, false, names) is None,
{
    lemma_names_below(dir);
    lemma_first_by_prefix(names, at);
    reveal_strlit("original.");
    if 0 <= at < names.len() && "original."@.is_prefix_of(names[at]) {
        assert(names[at][0] == "original."@[0]) by {
            assert(names[at].subrange(0, "original."@.len() as int)[0] == names[at][0]);
        }
    }
}

proof fn lemma_first_by_prefix(names: Seq<Seq<char>>, at: int)
    ensures
        0 <= at < names.len() && "original."@.is_prefix_of(names[at]) && (forall|i: int|
            0 <= i < at ==> !"original."@.is_prefix_of(#[trigger] names[i])) ==> first_original(
            names,
        ) == Some(names[at]),
        (forall|i: int| 0 <= i < names.len() ==> !"original."@.is_prefix_of(#[trigger] names[i]))
            ==> first_original(names) is None,
    decreases names.len(),
{
    if names.len() > 0 {
        let rest = names.drop_first();
        lemma_first_by_prefix(rest, at - 1);
        assert(begins_with(names[0], "original."@) <==> "original."@.is_prefix_of(names[0])) by {
            if "original."@.len() <= names[0].len() {
                assert(names[0].take("original."@.len() as int) =~= names[0].subrange(
                    0,
                    "original."@.len() as int,
                ));
            }
        }
        if 0 < at < names.len() && "original."@.is_prefix_of(names[at]) && (forall|i: int|
            0 <= i < at ==> !"original."@.is_prefix_of(#[trigger] names[i])) {
            assert(rest[at - 1] == names[at]);
            assert forall|i: int| 0 <= i < at - 1 implies !"original."@.is_prefix_of(
                #[trigger] rest[i],
            ) by {
                assert(rest[i] == names[i + 1]);
            }
        }
        if forall|i: int|
            0 <= i < names.len() ==> !"original."@.is_prefix_of(#[trigger] names[i]) {
            assert forall|i: int| 0 <= i < rest.len() implies !"original."@.is_prefix_of(
                #[trigger] rest[i],
            ) by {
                assert(rest[i] == names[i + 1]);
            }
        }
    }
}

/// An entry is a track just where it is a directory with particulars that are
/// JSON, whatever they say.
pub proof fn law_what_is_a_track(entry: CacheEntry)
    ensures
        entry.track() is Some <==> entry.is_dir && entry.sidecar is Some && parsed(
            entry.sidecar->0@,
        ) is Ok,
        entry.track() matches Some(t) ==> t.dir == entry.path@ && t == track_in(
            entry.path@,
            parsed(entry.sidecar->0@)->Ok_0,
            original_path(entry.path@, entry.has_mp3, texts(entry.names@)),
        ),
{
}

/// Tracks are listed in the order of their entries, and nothing else is.
pub proof fn law_tracks_are_listed_in_order(entries: Seq<CacheEntry>, entry: CacheEntry)
    ensures
        tracks_among(Seq::empty()) == Seq::<Cached>::empty(),
        entry.track() matches Some(t) ==> tracks_among(entries.push(entry)) == tracks_among(
            entries,
        ).push(t),
        entry.track() is None ==> tracks_among(entries.push(entry)) == tracks_among(entries),
{
    assert(entries.push(entry).drop_last() =~= entries);
}

/// Of several tracks with one identifier the first is found.
pub proof fn law_first_track_is_found(tracks: Seq<Cached>, global_id: Seq<char>, at: int)
    requires
        0 <= at < tracks.len(),
        tracks[at].global_id == global_id,
        forall|i: int| 0 <= i < at ==> (#[trigger] tracks[i]).global_id != global_id,
    ensures
        track_with_id(tracks, global_id) == Some(tracks[at]),
    decreases tracks.len(),
{
    if at > 0 {
        let rest = tracks.drop_first();
        assert(tracks[0].global_id != global_id);
        assert forall|i: int| 0 <= i < at - 1 implies (#[trigger] rest[i]).global_id
            != global_id by {
            assert(rest[i] == tracks[i + 1]);
        }
        law_first_track_is_found(rest, global_id, at - 1);
    }
}

/// An album's tracks are those with its name; one track of it is any of those
/// with the track's name in capitals or small letters.
pub proof fn law_which_tracks_leave(t: Cached, album_id: Seq<char>, track_id: Seq<char>)
    ensures
        of_album(album_id)(t) <==> t.album_id == album_id,
        of_album_track(album_id, track_id)(t) <==> t.album_id == album_id && lowercase(t.track_id)
            == lowercase(track_id),
{
}

/// The directories are removed in the order of the tracks.
pub proof fn law_removed_in_order(
    tracks: Seq<Cached>,
    t: Cached,
    chosen: spec_fn(Cached) -> bool,
)
    ensures
        dirs_of(Seq::empty(), chosen) == Seq::<Seq<char>>::empty(),
        chosen(t) ==> dirs_of(tracks.push(t), chosen) == dirs_of(tracks, chosen).push(t.dir),
        !chosen(t) ==> dirs_of(tracks.push(t), chosen) == dirs_of(tracks, chosen),
{
    assert(tracks.push(t).drop_last() =~= tracks);
}

/// Each removal that succeeded counts one.
pub proof fn law_removals_are_counted(outcomes: Seq<bool>)
    ensures
        removed(Seq::empty()) == 0,
        removed(outcomes.push(true)) == removed(outcomes) + 1,
        removed(outcomes.push(false)) == removed(outcomes),
{
    reveal(Seq::filter);
    assert(outcomes.push(true).drop_last() =~= outcomes);
    assert(outcomes.push(false).drop_last() =~= outcomes);
}

/// A kept track, an upload's particulars and its stems are taken as what they
/// hold, each text in its place.
pub proof fn law_texts_stay_in_place(
    t: CachedTrack,
    p: Particulars<'_>,
    stems: CachedStemPaths<'_>,
)
    ensures
        t@.dir == t.dir@ && t@.global_id == t.global_id@ && t@.title == t.title@,
        t@.artist == t.artist@ && t@.album_id == t.album_id@ && t@.track_id == t.track_id@,
        t@.timestamp == t.timestamp@ && t@.vocals == t.vocals@ && t@.bass == t.bass@,
        t@.drums == t.drums@ && t@.other == t.other@,
        t.original matches Some(song) ==> t@.original == Some(song@),
        t.original is None ==> t@.original is None,
        p@.global_id == p.global_id@ && p@.title == p.title@ && p@.artist == p.artist@,
        p@.album_id == p.album_id@ && p@.track_id == p.track_id@ && p@.timestamp == p.timestamp@,
        stems@.vocals == stems.vocals@ && stems@.bass == stems.bass@,
        stems@.drums == stems.drums@ && stems@.other == stems.other@,
{
}

/// A step on disk is taken as what it is.
pub proof fn law_deed_is_what_the_step_says(step: CacheStep)
    ensures
        step matches CacheStep::MakeDir(dir) ==> step@ == Deed::MakeDir(dir@),
        step matches CacheStep::Copy(from, to) ==> step@ == Deed::Copy(from@, to@),
        step matches CacheStep::TryCopy(from, to) ==> step@ == Deed::TryCopy(from@, to@),
        step matches CacheStep::Write(to, bytes) ==> step@ == Deed::Write(to@, bytes@),
{
}

} // verus!

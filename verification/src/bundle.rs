//! The upload of one track: the album's configuration, the four stems, and the
//! track's configuration, which makes the track appear.
use crate::error::Error;
use crate::files::{
    body, body_pieces, chunk_message, header_message, is_other, other_members, push_typed_file,
    received, typed_header, typed_messages,
};
use crate::frame::{messages, Frame, Message, OP_FILE_HEADER};
use crate::json::{
    array, is_readable, is_simple, is_whole, new_object, null, number, object, pretty_bytes,
    reads_as, text, to_vec_pretty, tree, unsigned, with_member, without_nul, Json, Members,
};
use crate::received::{is_stem, law_stems_are_received};
use crate::sequence::frames_in;
use crate::text::{ascii_lower, lowercase, to_lowercase, to_uppercase, uppercase};
use serde_json::Value;
use vstd::prelude::*;
use vstd::utf8::is_ascii_chars;

verus! {

/// How long the device is given to settle between two files, in milliseconds.
pub const SETTLE_MS: u64 = 250;

/// One track with its album, its titles and its four stems.
pub struct TrackBundle<'a> {
    pub album_id: &'a str,
    pub album_title: &'a str,
    pub track_id: &'a str,
    pub track_title: &'a str,
    pub global_id: &'a str,
    pub artist: &'a str,
    pub timestamp: &'a str,
    pub other: &'a [u8],
    pub vocals: &'a [u8],
    pub bass: &'a [u8],
    pub drums: &'a [u8],
}

/// What part of an upload is under way.
#[derive(Clone, Copy, Debug, PartialEq, Eq, Structural)]
pub enum Stage {
    AlbumConfig,
    Vocals,
    Bass,
    Drums,
    Other,
    TrackConfig,
    Done,
}

impl Stage {
    /// The stage's name.
    pub open spec fn name(self) -> Seq<char> {
        match self {
            Stage::AlbumConfig => "album-config"@,
            Stage::Vocals => "vocals"@,
            Stage::Bass => "bass"@,
            Stage::Drums => "drums"@,
            Stage::Other => "other"@,
            Stage::TrackConfig => "track-config"@,
            Stage::Done => "done"@,
        }
    }

    pub fn label(self) -> (res: &'static str)
        ensures
            res@ == self.name(),
    {
        match self {
            Stage::AlbumConfig => "album-config",
            Stage::Vocals => "vocals",
            Stage::Bass => "bass",
            Stage::Drums => "drums",
            Stage::Other => "other",
            Stage::TrackConfig => "track-config",
            Stage::Done => "done",
        }
    }
}

/// One step of an upload.
#[derive(Debug)]
pub enum PushStep {
    /// Tell the user that this stage begins.
    Stage(Stage),
    /// Wait for so many milliseconds.
    Wait(u64),
    /// Send the frame and wait for its acknowledgement.
    Send(Frame),
}

/// What a step of an upload is.
pub enum Step {
    Stage(Stage),
    Wait(int),
    Send(Message),
}

impl View for PushStep {
    type V = Step;

    open spec fn view(&self) -> Step {
        match self {
            PushStep::Stage(stage) => Step::Stage(*stage),
            PushStep::Wait(ms) => Step::Wait(*ms as int),
            PushStep::Send(frame) => Step::Send(frame@),
        }
    }
}

/// What each of some steps is.
pub open spec fn script(list: Seq<PushStep>) -> Seq<Step> {
    Seq::new(list.len(), |i: int| list[i]@)
}

/// The steps that send these frames.
pub open spec fn sends(list: Seq<Message>) -> Seq<Step> {
    list.map_values(|m: Message| Step::Send(m))
}

/// The album's configuration.
pub open spec fn album_config(
    id: Seq<char>,
    global_id: Seq<char>,
    artist: Seq<char>,
    title: Seq<char>,
) -> Json {
    Json::Object(
        seq![
            ("id"@, Json::Text(id)),
            ("global_id"@, Json::Text(global_id)),
            ("artist"@, Json::Text(artist)),
            ("title"@, Json::Text(title)),
            ("version"@, Json::Text("1"@)),
            ("tracks"@, Json::Null),
        ],
    )
}

/// What a track's configuration says of the track.
pub open spec fn track_metadata(
    artist: Seq<char>,
    title: Seq<char>,
    global_id: Seq<char>,
    timestamp: Seq<char>,
) -> Json {
    Json::Object(
        seq![
            ("artist"@, Json::Text(artist)),
            ("title"@, Json::Text(title)),
            ("global_id"@, Json::Text(global_id)),
            ("meta_version"@, Json::Text("1"@)),
            ("stems_version"@, Json::Text("1"@)),
            ("timestamp"@, Json::Text(timestamp)),
        ],
    )
}

/// The tempo that every track gets: 120 beats a minute from its start.
pub open spec fn steady_tempo() -> Json {
    Json::Object(seq![("time_ms"@, number(0)), ("tempo_bpm"@, number(120))])
}

/// The track's configuration.
pub open spec fn track_config(metadata: Json) -> Json {
    Json::Object(
        seq![
            ("TrackColour"@, Json::Array(seq![Json::Text("#E03E3E"@), Json::Text("#FFFFFF"@)])),
            ("tempos"@, Json::Array(seq![steady_tempo()])),
            ("TrackGain_dB"@, number(0)),
            ("metadata"@, metadata),
        ],
    )
}

/// What the header of an album's configuration says besides the size.
pub open spec fn album_meta(album: Seq<char>) -> Json {
    Json::Object(seq![("type"@, Json::Text("album-config"@)), ("album"@, Json::Text(album))])
}

/// What the header of a stem says besides the size.
pub open spec fn stem_meta(album: Seq<char>, track: Seq<char>, stem: int) -> Json {
    Json::Object(
        seq![
            ("type"@, Json::Text("stem-audio-mp3"@)),
            ("track"@, Json::Text(track)),
            ("album"@, Json::Text(album)),
            ("stem"@, number(stem)),
        ],
    )
}

/// What the header of a track's configuration says besides the size.
pub open spec fn track_meta(album: Seq<char>, track: Seq<char>) -> Json {
    Json::Object(
        seq![
            ("type"@, Json::Text("track-config"@)),
            ("track"@, Json::Text(track)),
            ("album"@, Json::Text(album)),
        ],
    )
}

/// The device's number of a stem.
pub open spec fn stem_number(stage: Stage) -> int {
    match stage {
        Stage::Other => 1,
        Stage::Vocals => 2,
        Stage::Bass => 3,
        Stage::Drums => 4,
        _ => 0,
    }
}

/// What is uploaded.
#[verifier::ext_equal]
pub struct Upload {
    pub album_id: Seq<char>,
    pub album_title: Seq<char>,
    pub track_id: Seq<char>,
    pub track_title: Seq<char>,
    pub global_id: Seq<char>,
    pub artist: Seq<char>,
    pub timestamp: Seq<char>,
    pub other: Seq<u8>,
    pub vocals: Seq<u8>,
    pub bass: Seq<u8>,
    pub drums: Seq<u8>,
}

impl<'a> View for TrackBundle<'a> {
    type V = Upload;

    open spec fn view(&self) -> Upload {
        Upload {
            album_id: self.album_id@,
            album_title: self.album_title@,
            track_id: self.track_id@,
            track_title: self.track_title@,
            global_id: self.global_id@,
            artist: self.artist@,
            timestamp: self.timestamp@,
            other: self.other@,
            vocals: self.vocals@,
            bass: self.bass@,
            drums: self.drums@,
        }
    }
}

impl Upload {
    /// The album's configuration as it is written.
    pub open spec fn album_body(self) -> Seq<u8> {
        pretty_bytes(
            album_config(
                uppercase(self.album_id),
                self.global_id,
                self.artist,
                self.album_title,
            ),
        )
    }

    /// The track's configuration as it is written.
    pub open spec fn track_body(self) -> Seq<u8> {
        pretty_bytes(
            track_config(
                track_metadata(
                    self.artist,
                    self.track_title,
                    self.global_id,
                    self.timestamp,
                ),
            ),
        )
    }

    /// Whether the two configurations are read back as what they were written
    /// from, and hold no NUL of their own.
    pub open spec fn reads_back(self) -> bool {
        &&& without_nul(self.album_body())
        &&& reads_as(
            self.album_body(),
            album_config(
                uppercase(self.album_id),
                self.global_id,
                self.artist,
                self.album_title,
            ),
        )
        &&& without_nul(self.track_body())
        &&& reads_as(
            self.track_body(),
            track_config(
                track_metadata(
                    self.artist,
                    self.track_title,
                    self.global_id,
                    self.timestamp,
                ),
            ),
        )
    }

    /// The steps that push a stem.
    pub open spec fn stem_steps(self, stage: Stage, bytes: Seq<u8>) -> Seq<Step> {
        file_steps(
            stage,
            stem_meta(self.album_id, lowercase(self.track_id), stem_number(stage)),
            bytes,
            false,
        )
    }

    /// The steps of the upload: the album's configuration, the stems, and the
    /// track's configuration, with time to settle between each two.
    pub open spec fn steps(self) -> Seq<Step> {
        file_steps(Stage::AlbumConfig, album_meta(self.album_id), self.album_body(), false)
            + pause() + self.stem_steps(Stage::Vocals, self.vocals)
            + pause() + self.stem_steps(Stage::Bass, self.bass)
            + pause() + self.stem_steps(Stage::Drums, self.drums)
            + pause() + self.stem_steps(Stage::Other, self.other)
            + pause() + file_steps(
            Stage::TrackConfig,
            track_meta(self.album_id, lowercase(self.track_id)),
            self.track_body(),
            true,
        ) + seq![Step::Stage(Stage::Done)]
    }
}

/// The steps of one stage: telling of it, then pushing its file.
pub open spec fn file_steps(stage: Stage, meta: Json, bytes: Seq<u8>, nul: bool) -> Seq<Step> {
    seq![Step::Stage(stage)] + sends(typed_messages(meta, bytes, nul))
}

/// The device is given time to settle.
pub open spec fn pause() -> Seq<Step> {
    seq![Step::Wait(SETTLE_MS as int)]
}

/// Writes the configuration of an album. It reads back as what was written.
pub fn album_config_body(
    album_id: &str,
    global_id: &str,
    artist: &str,
    title: &str,
) -> (res: Result<Vec<u8>, Error>)
    ensures
        res is Ok,
        res->Ok_0@ == pretty_bytes(
            album_config(uppercase(album_id@), global_id@, artist@, title@),
        ),
        without_nul(res->Ok_0@),
        reads_as(
            res->Ok_0@,
            album_config(uppercase(album_id@), global_id@, artist@, title@),
        ),
{
    proof {
        reveal_strlit("id");
        reveal_strlit("global_id");
        reveal_strlit("artist");
        reveal_strlit("title");
        reveal_strlit("version");
        reveal_strlit("tracks");
        assert("artist"@[0] == 'a' && "tracks"@[0] == 't');
        assert("id"@.len() == 2 && "global_id"@.len() == 9 && "artist"@.len() == 6);
        assert("title"@.len() == 5 && "version"@.len() == 7 && "tracks"@.len() == 6);
    }
    let id: String = to_uppercase(album_id);
    let m = with_member(new_object(), "id", text(id.as_str()));
    let m = with_member(m, "global_id", text(global_id));
    let m = with_member(m, "artist", text(artist));
    let m = with_member(m, "title", text(title));
    let m = with_member(m, "version", text("1"));
    let m = with_member(m, "tracks", null());
    let config: Value = object(m);
    let ghost wanted = album_config(uppercase(album_id@), global_id@, artist@, title@);
    assert(tree(config)->Object_0 =~= wanted->Object_0);
    assert(is_readable(wanted)) by {
        reveal_with_fuel(is_simple, 2);
    }
    match to_vec_pretty(&config) {
        Ok(bytes) => Ok(bytes),
        Err(e) => Err(Error::Json(e)),
    }
}

/// Writes the configuration of a track. It reads back as what was written.
pub fn track_config_body(
    artist: &str,
    title: &str,
    global_id: &str,
    timestamp: &str,
) -> (res: Result<Vec<u8>, Error>)
    ensures
        res is Ok,
        res->Ok_0@ == pretty_bytes(
            track_config(track_metadata(artist@, title@, global_id@, timestamp@)),
        ),
        without_nul(res->Ok_0@),
        reads_as(
            res->Ok_0@,
            track_config(track_metadata(artist@, title@, global_id@, timestamp@)),
        ),
{
    let metadata: Value = metadata_value(artist, title, global_id, timestamp);
    let mut colours: Vec<Value> = Vec::new();
    colours.push(text("#E03E3E"));
    colours.push(text("#FFFFFF"));
    let colours: Value = array(colours);
    assert(tree(colours)->Array_0 =~= seq![Json::Text("#E03E3E"@), Json::Text("#FFFFFF"@)]);
    let mut tempos: Vec<Value> = Vec::new();
    tempos.push(tempo_value());
    let tempos: Value = array(tempos);
    assert(tree(tempos)->Array_0 =~= seq![steady_tempo()]);
    proof {
        reveal_strlit("TrackColour");
        reveal_strlit("tempos");
        reveal_strlit("TrackGain_dB");
        reveal_strlit("metadata");
        assert("TrackColour"@.len() == 11 && "tempos"@.len() == 6);
        assert("TrackGain_dB"@.len() == 12 && "metadata"@.len() == 8);
    }
    let m = with_member(new_object(), "TrackColour", colours);
    let m = with_member(m, "tempos", tempos);
    let m = with_member(m, "TrackGain_dB", unsigned(0));
    let m = with_member(m, "metadata", metadata);
    let config: Value = object(m);
    let ghost wanted = track_config(track_metadata(artist@, title@, global_id@, timestamp@));
    assert(tree(config)->Object_0 =~= wanted->Object_0);
    assert(is_readable(wanted)) by {
        reveal_with_fuel(is_simple, 4);
        assert(is_whole(crate::text::signed_decimal(0)));
        assert(is_whole(crate::text::signed_decimal(120)));
    }
    match to_vec_pretty(&config) {
        Ok(bytes) => Ok(bytes),
        Err(e) => Err(Error::Json(e)),
    }
}

fn metadata_value(artist: &str, title: &str, global_id: &str, timestamp: &str) -> (res: Value)
    ensures
        tree(res) == track_metadata(artist@, title@, global_id@, timestamp@),
{
    proof {
        reveal_strlit("artist");
        reveal_strlit("title");
        reveal_strlit("global_id");
        reveal_strlit("meta_version");
        reveal_strlit("stems_version");
        reveal_strlit("timestamp");
        assert("global_id"@[0] == 'g' && "timestamp"@[0] == 't');
        assert("artist"@.len() == 6 && "title"@.len() == 5 && "global_id"@.len() == 9);
        assert("meta_version"@.len() == 12 && "stems_version"@.len() == 13);
        assert("timestamp"@.len() == 9);
    }
    let m = with_member(new_object(), "artist", text(artist));
    let m = with_member(m, "title", text(title));
    let m = with_member(m, "global_id", text(global_id));
    let m = with_member(m, "meta_version", text("1"));
    let m = with_member(m, "stems_version", text("1"));
    let m = with_member(m, "timestamp", text(timestamp));
    let res: Value = object(m);
    assert(tree(res)->Object_0 =~= track_metadata(
        artist@,
        title@,
        global_id@,
        timestamp@,
    )->Object_0);
    res
}

fn tempo_value() -> (res: Value)
    ensures
        tree(res) == steady_tempo(),
{
    proof {
        reveal_strlit("time_ms");
        reveal_strlit("tempo_bpm");
        assert("time_ms"@.len() == 7 && "tempo_bpm"@.len() == 9);
    }
    let m = with_member(new_object(), "time_ms", unsigned(0));
    let m = with_member(m, "tempo_bpm", unsigned(120));
    let res: Value = object(m);
    assert(tree(res)->Object_0 =~= steady_tempo()->Object_0);
    res
}

fn album_meta_value(album: &str) -> (res: Value)
    ensures
        tree(res) == album_meta(album@),
{
    proof {
        reveal_strlit("type");
        reveal_strlit("album");
        assert("type"@.len() == 4 && "album"@.len() == 5);
    }
    let m = with_member(new_object(), "type", text("album-config"));
    let m = with_member(m, "album", text(album));
    let res: Value = object(m);
    assert(tree(res)->Object_0 =~= album_meta(album@)->Object_0);
    res
}

fn stem_meta_value(album: &str, track: &str, stem: u64) -> (res: Value)
    ensures
        tree(res) == stem_meta(album@, track@, stem as int),
{
    proof {
        reveal_strlit("type");
        reveal_strlit("album");
        reveal_strlit("track");
        reveal_strlit("stem");
        assert("type"@[0] == 't' && "stem"@[0] == 's' && "album"@[0] == 'a' && "track"@[0] == 't');
        assert("type"@.len() == 4 && "album"@.len() == 5);
        assert("track"@.len() == 5 && "stem"@.len() == 4);
    }
    let m = with_member(new_object(), "type", text("stem-audio-mp3"));
    let m = with_member(m, "track", text(track));
    let m = with_member(m, "album", text(album));
    let m = with_member(m, "stem", unsigned(stem));
    let res: Value = object(m);
    assert(tree(res)->Object_0 =~= stem_meta(album@, track@, stem as int)->Object_0);
    res
}

fn track_meta_value(album: &str, track: &str) -> (res: Value)
    ensures
        tree(res) == track_meta(album@, track@),
{
    proof {
        reveal_strlit("type");
        reveal_strlit("album");
        reveal_strlit("track");
        assert("album"@[0] == 'a' && "track"@[0] == 't');
        assert("type"@.len() == 4 && "album"@.len() == 5 && "track"@.len() == 5);
    }
    let m = with_member(new_object(), "type", text("track-config"));
    let m = with_member(m, "track", text(track));
    let m = with_member(m, "album", text(album));
    let res: Value = object(m);
    assert(tree(res)->Object_0 =~= track_meta(album@, track@)->Object_0);
    res
}

/// Appends to `list` the steps that send these frames.
fn send_all(list: &mut Vec<PushStep>, frames: Vec<Frame>)
    ensures
        script(final(list)@) == script(old(list)@) + sends(messages(frames@)),
{
    let ghost all = frames@;
    let ghost before = script(list@);
    assert(script(list@) =~= before + sends(messages(all)).take(0));
    for frame in it: frames
        invariant
            it.seq() == all,
            script(list@) == before + sends(messages(all)).take(it.index() as int),
    {
        let ghost i = it.index() as int;
        let ghost known = list@;
        list.push(PushStep::Send(frame));
        assert(script(list@) =~= script(known).push(sends(messages(all))[i]));
        assert(sends(messages(all)).take(i + 1) =~= sends(messages(all)).take(i).push(
            sends(messages(all))[i],
        ));
        assert(script(list@) =~= before + sends(messages(all)).take(i + 1));
    }
    assert(sends(messages(all)).take(all.len() as int) =~= sends(messages(all)));
}

/// Appends one step to `list`.
fn add_step(list: &mut Vec<PushStep>, step: PushStep)
    ensures
        script(final(list)@) == script(old(list)@) + seq![step@],
{
    let ghost known = list@;
    list.push(step);
    assert(script(list@) =~= script(known) + seq![step@]);
}

/// Appends the steps of one stage.
fn add_file(list: &mut Vec<PushStep>, stage: Stage, meta: &Value, bytes: &[u8], nul: bool) -> (res:
    Result<(), Error>)
    ensures
        res is Ok,
        script(final(list)@) == script(old(list)@) + file_steps(stage, tree(*meta), bytes@, nul),
{
    let ghost before = script(list@);
    add_step(list, PushStep::Stage(stage));
    match push_typed_file(meta, bytes, nul) {
        Err(e) => Err(e),
        Ok(frames) => {
            send_all(list, frames);
            assert(script(list@) =~= before + file_steps(stage, tree(*meta), bytes@, nul));
            Ok(())
        },
    }
}

/// The steps that upload a track, in order. The first frame that the device
/// does not take ends the upload.
pub fn push_track_bundle(b: &TrackBundle<'_>) -> (res: Result<Vec<PushStep>, Error>)
    ensures
        res is Ok,
        script(res->Ok_0@) == b@.steps(),
        b@.reads_back(),
        is_ascii_chars(b.track_id@) ==> lowercase(b.track_id@) == b.track_id@.map_values(
            |c: char| ascii_lower(c),
        ),
        ({
            let files = received(frames_in(script(res->Ok_0@)));
            &&& files.len() == 6
            &&& is_stem(files[1], b.album_id@, lowercase(b.track_id@), 2, b.vocals@)
            &&& is_stem(files[2], b.album_id@, lowercase(b.track_id@), 3, b.bass@)
            &&& is_stem(files[3], b.album_id@, lowercase(b.track_id@), 4, b.drums@)
            &&& is_stem(files[4], b.album_id@, lowercase(b.track_id@), 1, b.other@)
        }),
{
    let mut list: Vec<PushStep> = Vec::new();
    let album: Vec<u8> = album_config_body(b.album_id, b.global_id, b.artist, b.album_title)?;
    let meta: Value = album_meta_value(b.album_id);
    add_file(&mut list, Stage::AlbumConfig, &meta, album.as_slice(), false)?;
    assert(script(list@) =~= file_steps(
        Stage::AlbumConfig,
        album_meta(b.album_id@),
        b@.album_body(),
        false,
    ));
    add_step(&mut list, PushStep::Wait(SETTLE_MS));
    let track: String = to_lowercase(b.track_id);
    let meta: Value = stem_meta_value(b.album_id, track.as_str(), 2);
    add_file(&mut list, Stage::Vocals, &meta, b.vocals, false)?;
    add_step(&mut list, PushStep::Wait(SETTLE_MS));
    let meta: Value = stem_meta_value(b.album_id, track.as_str(), 3);
    add_file(&mut list, Stage::Bass, &meta, b.bass, false)?;
    add_step(&mut list, PushStep::Wait(SETTLE_MS));
    let meta: Value = stem_meta_value(b.album_id, track.as_str(), 4);
    add_file(&mut list, Stage::Drums, &meta, b.drums, false)?;
    add_step(&mut list, PushStep::Wait(SETTLE_MS));
    let meta: Value = stem_meta_value(b.album_id, track.as_str(), 1);
    add_file(&mut list, Stage::Other, &meta, b.other, false)?;
    add_step(&mut list, PushStep::Wait(SETTLE_MS));
    let config: Vec<u8> = track_config_body(b.artist, b.track_title, b.global_id, b.timestamp)?;
    let meta: Value = track_meta_value(b.album_id, track.as_str());
    add_file(&mut list, Stage::TrackConfig, &meta, config.as_slice(), true)?;
    add_step(&mut list, PushStep::Stage(Stage::Done));
    proof {
        law_stems_are_received(b@);
    }
    Ok(list)
}

/// The file headers among some steps, in order.
#[verifier::opaque]
pub open spec fn headers_in(list: Seq<Step>) -> Seq<Message>
    decreases list.len(),
{
    if list.len() == 0 {
        Seq::empty()
    } else {
        match list.last() {
            Step::Send(m) => if m.op == OP_FILE_HEADER {
                headers_in(list.drop_last()).push(m)
            } else {
                headers_in(list.drop_last())
            },
            _ => headers_in(list.drop_last()),
        }
    }
}

/// The stages among some steps, in order.
#[verifier::opaque]
pub open spec fn stages_in(list: Seq<Step>) -> Seq<Stage>
    decreases list.len(),
{
    if list.len() == 0 {
        Seq::empty()
    } else {
        match list.last() {
            Step::Stage(stage) => stages_in(list.drop_last()).push(stage),
            _ => stages_in(list.drop_last()),
        }
    }
}

proof fn lemma_joined_steps(a: Seq<Step>, b: Seq<Step>)
    ensures
        headers_in(a + b) == headers_in(a) + headers_in(b),
        stages_in(a + b) == stages_in(a) + stages_in(b),
    decreases b.len(),
{
    reveal(headers_in);
    reveal(stages_in);
    if b.len() == 0 {
        assert(a + b =~= a);
        assert(headers_in(a) + headers_in(b) =~= headers_in(a));
        assert(stages_in(a) + stages_in(b) =~= stages_in(a));
    } else {
        lemma_joined_steps(a, b.drop_last());
        assert((a + b).drop_last() =~= a + b.drop_last());
        assert((a + b).last() == b.last());
        assert(headers_in(a + b) =~= headers_in(a) + headers_in(b));
        assert(stages_in(a + b) =~= stages_in(a) + stages_in(b));
    }
}

proof fn lemma_single_step(step: Step)
    ensures
        headers_in(seq![step]) == (match step {
            Step::Send(m) => if m.op == OP_FILE_HEADER {
                seq![m]
            } else {
                Seq::empty()
            },
            _ => Seq::empty(),
        }),
        stages_in(seq![step]) == (match step {
            Step::Stage(stage) => seq![stage],
            _ => Seq::empty(),
        }),
{
    reveal_with_fuel(headers_in, 2);
    reveal_with_fuel(stages_in, 2);
    assert(seq![step].drop_last() =~= Seq::empty());
    assert(headers_in(seq![step].drop_last()) =~= Seq::<Message>::empty());
    assert(stages_in(seq![step].drop_last()) =~= Seq::<Stage>::empty());
    match step {
        Step::Send(m) => {
            if m.op == OP_FILE_HEADER {
                assert(headers_in(seq![step]) =~= seq![m]);
            }
        },
        Step::Stage(stage) => {
            assert(stages_in(seq![step]) =~= seq![stage]);
        },
        _ => {},
    }
}

proof fn lemma_only_chunks(parts: Seq<Seq<u8>>)
    ensures
        headers_in(sends(parts.map_values(|p: Seq<u8>| chunk_message(p)))) == Seq::<
            Message,
        >::empty(),
        stages_in(sends(parts.map_values(|p: Seq<u8>| chunk_message(p)))) == Seq::<Stage>::empty(),
    decreases parts.len(),
{
    reveal(headers_in);
    reveal(stages_in);
    if parts.len() > 0 {
        lemma_only_chunks(parts.drop_last());
        assert(sends(parts.map_values(|p: Seq<u8>| chunk_message(p))).drop_last() =~= sends(
            parts.drop_last().map_values(|p: Seq<u8>| chunk_message(p)),
        ));
    }
}

proof fn lemma_one_header(meta: Json, bytes: Seq<u8>, nul: bool)
    ensures
        headers_in(sends(typed_messages(meta, bytes, nul))) == seq![
            header_message(typed_header(meta, body(bytes, nul).len() as int)),
        ],
        stages_in(sends(typed_messages(meta, bytes, nul))) == Seq::<Stage>::empty(),
{
    let header = header_message(typed_header(meta, body(bytes, nul).len() as int));
    let chunks = body_pieces(bytes, nul).map_values(|p: Seq<u8>| chunk_message(p));
    lemma_only_chunks(body_pieces(bytes, nul));
    lemma_single_step(Step::Send(header));
    lemma_joined_steps(seq![Step::Send(header)], sends(chunks));
    assert(sends(typed_messages(meta, bytes, nul)) =~= seq![Step::Send(header)] + sends(chunks));
    assert(seq![header] + Seq::<Message>::empty() =~= seq![header]);
    assert(Seq::<Stage>::empty() + Seq::<Stage>::empty() =~= Seq::<Stage>::empty());
}

/// Exactly six files go out: the album's configuration first, then the stems
/// vocals, bass, drums and other under their numbers, and last the track's
/// configuration.
pub proof fn law_order_of_files(b: Upload)
    ensures
        headers_in(b.steps()) == seq![
            header_message(album_header(b.album_id, b.album_body().len() as int)),
            header_message(
                stem_header(b.album_id, lowercase(b.track_id), 2, b.vocals.len() as int),
            ),
            header_message(
                stem_header(b.album_id, lowercase(b.track_id), 3, b.bass.len() as int),
            ),
            header_message(
                stem_header(b.album_id, lowercase(b.track_id), 4, b.drums.len() as int),
            ),
            header_message(
                stem_header(b.album_id, lowercase(b.track_id), 1, b.other.len() as int),
            ),
            header_message(
                track_header(
                    b.album_id,
                    lowercase(b.track_id),
                    b.track_body().len() as int + 1,
                ),
            ),
        ],
        stages_in(b.steps()) == seq![
            Stage::AlbumConfig,
            Stage::Vocals,
            Stage::Bass,
            Stage::Drums,
            Stage::Other,
            Stage::TrackConfig,
            Stage::Done,
        ],
{
    let album = file_steps(Stage::AlbumConfig, album_meta(b.album_id), b.album_body(), false);
    let vocals = b.stem_steps(Stage::Vocals, b.vocals);
    let bass = b.stem_steps(Stage::Bass, b.bass);
    let drums = b.stem_steps(Stage::Drums, b.drums);
    let other = b.stem_steps(Stage::Other, b.other);
    let track = file_steps(
        Stage::TrackConfig,
        track_meta(b.album_id, lowercase(b.track_id)),
        b.track_body(),
        true,
    );
    let done = seq![Step::Stage(Stage::Done)];
    lemma_config_files(b);
    lemma_stem_file(b, Stage::Vocals, b.vocals);
    lemma_stem_file(b, Stage::Bass, b.bass);
    lemma_stem_file(b, Stage::Drums, b.drums);
    lemma_stem_file(b, Stage::Other, b.other);
    lemma_single_step(Step::Stage(Stage::Done));
    lemma_seven_parts(album, vocals, bass, drums, other, track, done);
    lemma_six_single(
        headers_in(album)[0],
        headers_in(vocals)[0],
        headers_in(bass)[0],
        headers_in(drums)[0],
        headers_in(other)[0],
        headers_in(track)[0],
    );
    lemma_six_single(
        Stage::AlbumConfig,
        Stage::Vocals,
        Stage::Bass,
        Stage::Drums,
        Stage::Other,
        Stage::TrackConfig,
    );
    assert(b.steps() == album + pause() + vocals + pause() + bass + pause() + drums + pause()
        + other + pause() + track + done);
}

proof fn lemma_six_single<A>(a: A, b: A, c: A, d: A, e: A, f: A)
    ensures
        seq![a] + seq![b] + seq![c] + seq![d] + seq![e] + seq![f] + Seq::empty() == seq![
            a,
            b,
            c,
            d,
            e,
            f,
        ],
        forall|g: A|
            seq![a] + seq![b] + seq![c] + seq![d] + seq![e] + seq![f] + #[trigger] seq![g] == seq![
                a,
                b,
                c,
                d,
                e,
                f,
                g,
            ],
{
    assert(seq![a] + seq![b] + seq![c] + seq![d] + seq![e] + seq![f] + Seq::empty() =~= seq![
        a,
        b,
        c,
        d,
        e,
        f,
    ]);
    assert forall|g: A|
        seq![a] + seq![b] + seq![c] + seq![d] + seq![e] + seq![f] + #[trigger] seq![g] == seq![
            a,
            b,
            c,
            d,
            e,
            f,
            g,
        ] by {
        assert(seq![a] + seq![b] + seq![c] + seq![d] + seq![e] + seq![f] + seq![g] =~= seq![
            a,
            b,
            c,
            d,
            e,
            f,
            g,
        ]);
    }
}

proof fn lemma_config_files(b: Upload)
    ensures
        headers_in(
            file_steps(Stage::AlbumConfig, album_meta(b.album_id), b.album_body(), false),
        ) == seq![header_message(album_header(b.album_id, b.album_body().len() as int))],
        stages_in(file_steps(Stage::AlbumConfig, album_meta(b.album_id), b.album_body(), false))
            == seq![Stage::AlbumConfig],
        headers_in(
            file_steps(
                Stage::TrackConfig,
                track_meta(b.album_id, lowercase(b.track_id)),
                b.track_body(),
                true,
            ),
        ) == seq![
            header_message(
                track_header(
                    b.album_id,
                    lowercase(b.track_id),
                    b.track_body().len() as int + 1,
                ),
            ),
        ],
        stages_in(
            file_steps(
                Stage::TrackConfig,
                track_meta(b.album_id, lowercase(b.track_id)),
                b.track_body(),
                true,
            ),
        ) == seq![Stage::TrackConfig],
{
    let track = lowercase(b.track_id);
    law_headers_are_exact(b.album_id, track, 0, b.album_body().len() as int);
    law_headers_are_exact(b.album_id, track, 0, b.track_body().len() as int + 1);
    lemma_file_steps(Stage::AlbumConfig, album_meta(b.album_id), b.album_body(), false);
    lemma_file_steps(Stage::TrackConfig, track_meta(b.album_id, track), b.track_body(), true);
}

proof fn lemma_stem_file(b: Upload, stage: Stage, bytes: Seq<u8>)
    ensures
        headers_in(b.stem_steps(stage, bytes)) == seq![
            header_message(
                stem_header(
                    b.album_id,
                    lowercase(b.track_id),
                    stem_number(stage),
                    bytes.len() as int,
                ),
            ),
        ],
        stages_in(b.stem_steps(stage, bytes)) == seq![stage],
{
    let track = lowercase(b.track_id);
    let stem = stem_number(stage);
    law_headers_are_exact(b.album_id, track, stem, bytes.len() as int);
    lemma_file_steps(stage, stem_meta(b.album_id, track, stem), bytes, false);
}

/// What is in the seven parts of an upload, with pauses between them, is what
/// is in each of them.
proof fn lemma_seven_parts(
    a: Seq<Step>,
    b: Seq<Step>,
    c: Seq<Step>,
    d: Seq<Step>,
    e: Seq<Step>,
    f: Seq<Step>,
    g: Seq<Step>,
)
    ensures
        ({
            let all = a + pause() + b + pause() + c + pause() + d + pause() + e + pause() + f + g;
            &&& headers_in(all) == headers_in(a) + headers_in(b) + headers_in(c) + headers_in(d)
                + headers_in(e) + headers_in(f) + headers_in(g)
            &&& stages_in(all) == stages_in(a) + stages_in(b) + stages_in(c) + stages_in(d)
                + stages_in(e) + stages_in(f) + stages_in(g)
        }),
{
    let s1 = a + pause() + b;
    let s2 = s1 + pause() + c;
    let s3 = s2 + pause() + d;
    let s4 = s3 + pause() + e;
    let s5 = s4 + pause() + f;
    lemma_after_pause(a, b);
    lemma_after_pause(s1, c);
    lemma_after_pause(s2, d);
    lemma_after_pause(s3, e);
    lemma_after_pause(s4, f);
    lemma_joined_steps(s5, g);
}

proof fn lemma_file_steps(stage: Stage, meta: Json, bytes: Seq<u8>, nul: bool)
    ensures
        headers_in(file_steps(stage, meta, bytes, nul)) == seq![
            header_message(typed_header(meta, body(bytes, nul).len() as int)),
        ],
        stages_in(file_steps(stage, meta, bytes, nul)) == seq![stage],
{
    lemma_single_step(Step::Stage(stage));
    lemma_one_header(meta, bytes, nul);
    lemma_joined_steps(seq![Step::Stage(stage)], sends(typed_messages(meta, bytes, nul)));
    let header = header_message(typed_header(meta, body(bytes, nul).len() as int));
    assert(Seq::<Message>::empty() + seq![header] =~= seq![header]);
    assert(seq![stage] + Seq::<Stage>::empty() =~= seq![stage]);
}

proof fn lemma_after_pause(a: Seq<Step>, b: Seq<Step>)
    ensures
        headers_in(a + pause() + b) == headers_in(a) + headers_in(b),
        stages_in(a + pause() + b) == stages_in(a) + stages_in(b),
{
    lemma_single_step(Step::Wait(SETTLE_MS as int));
    lemma_joined_steps(a, pause());
    lemma_joined_steps(a + pause(), b);
    assert(headers_in(a) + Seq::<Message>::empty() =~= headers_in(a));
    assert(stages_in(a) + Seq::<Stage>::empty() =~= stages_in(a));
}

/// The header of an album's configuration, of this size.
pub open spec fn album_header(album: Seq<char>, size: int) -> Json {
    Json::Object(
        seq![
            ("size"@, number(size)),
            ("type"@, Json::Text("album-config"@)),
            ("album"@, Json::Text(album)),
        ],
    )
}

/// The header of a stem, of this size.
pub open spec fn stem_header(album: Seq<char>, track: Seq<char>, stem: int, size: int) -> Json {
    Json::Object(
        seq![
            ("size"@, number(size)),
            ("type"@, Json::Text("stem-audio-mp3"@)),
            ("track"@, Json::Text(track)),
            ("album"@, Json::Text(album)),
            ("stem"@, number(stem)),
        ],
    )
}

/// The header of a track's configuration, of this size.
pub open spec fn track_header(album: Seq<char>, track: Seq<char>, size: int) -> Json {
    Json::Object(
        seq![
            ("size"@, number(size)),
            ("type"@, Json::Text("track-config"@)),
            ("track"@, Json::Text(track)),
            ("album"@, Json::Text(album)),
        ],
    )
}

proof fn lemma_kept_members(members: Members)
    requires
        members.len() > 0,
        members[0].0 == "type"@,
        forall|i: int| 1 <= i < members.len() ==> is_other(#[trigger] members[i]),
    ensures
        other_members(Json::Object(members)) == members.drop_first(),
    decreases members.len(),
{
    reveal(Seq::filter);
    let front = members.drop_last();
    if members.len() == 1 {
        assert(front.filter(|e: (Seq<char>, Json)| is_other(e)) =~= Seq::empty());
        assert(!is_other(members.last()));
        assert(members.drop_first() =~= Seq::empty());
    } else {
        lemma_kept_members(front);
        assert(is_other(members.last()));
        assert(front.drop_first().push(members.last()) =~= members.drop_first());
    }
}

proof fn lemma_type_first(members: Members)
    requires
        members.len() > 0,
        members[0].0 == "type"@,
        forall|i: int| 1 <= i < members.len() ==> is_other(#[trigger] members[i]),
    ensures
        forall|size: int| #[trigger]
            typed_header(Json::Object(members), size) == Json::Object(
                seq![("size"@, number(size))] + members,
            ),
{
    lemma_kept_members(members);
    assert forall|size: int| #[trigger]
        typed_header(Json::Object(members), size) == Json::Object(
            seq![("size"@, number(size))] + members,
        ) by {
        let made = typed_header(Json::Object(members), size)->Object_0;
        assert(made =~= seq![("size"@, number(size))] + members);
    }
}

/// The headers of an upload hold exactly the members that the device expects,
/// in its order.
pub proof fn law_headers_are_exact(album: Seq<char>, track: Seq<char>, stem: int, size: int)
    ensures
        typed_header(album_meta(album), size) == album_header(album, size),
        typed_header(stem_meta(album, track, stem), size) == stem_header(album, track, stem, size),
        typed_header(track_meta(album, track), size) == track_header(album, track, size),
{
    reveal_strlit("size");
    reveal_strlit("type");
    reveal_strlit("album");
    reveal_strlit("track");
    reveal_strlit("stem");
    assert("type"@[0] == 't' && "stem"@[0] == 's' && "size"@[1] == 'i' && "stem"@[1] == 't');
    assert("type"@.len() == 4 && "size"@.len() == 4 && "stem"@.len() == 4);
    assert("album"@.len() == 5 && "track"@.len() == 5);
    lemma_type_first(album_meta(album)->Object_0);
    lemma_type_first(stem_meta(album, track, stem)->Object_0);
    lemma_type_first(track_meta(album, track)->Object_0);
    assert(seq![("size"@, number(size))] + album_meta(album)->Object_0 =~= album_header(
        album,
        size,
    )->Object_0);
    assert(seq![("size"@, number(size))] + stem_meta(album, track, stem)->Object_0 =~= stem_header(
        album,
        track,
        stem,
        size,
    )->Object_0);
    assert(seq![("size"@, number(size))] + track_meta(album, track)->Object_0 =~= track_header(
        album,
        track,
        size,
    )->Object_0);
}

/// The names of the stages.
pub proof fn law_names_of_the_stages()
    ensures
        Stage::AlbumConfig.name() == "album-config"@,
        Stage::Vocals.name() == "vocals"@,
        Stage::Bass.name() == "bass"@,
        Stage::Drums.name() == "drums"@,
        Stage::Other.name() == "other"@,
        Stage::TrackConfig.name() == "track-config"@,
        Stage::Done.name() == "done"@,
{
}

/// A bundle is uploaded as what it holds, each text and each stem in its place.
pub proof fn law_bundle_is_taken_as_it_is(b: TrackBundle<'_>)
    ensures
        b@.album_id == b.album_id@ && b@.album_title == b.album_title@,
        b@.track_id == b.track_id@ && b@.track_title == b.track_title@,
        b@.global_id == b.global_id@ && b@.artist == b.artist@ && b@.timestamp == b.timestamp@,
        b@.other == b.other@ && b@.vocals == b.vocals@,
        b@.bass == b.bass@ && b@.drums == b.drums@,
{
}

/// A step is taken as what it is.
pub proof fn law_step_is_taken_as_it_is(step: PushStep)
    ensures
        step matches PushStep::Stage(stage) ==> step@ == Step::Stage(stage),
        step matches PushStep::Wait(ms) ==> step@ == Step::Wait(ms as int),
        step matches PushStep::Send(frame) ==> step@ == Step::Send(
            Message { op: frame.op, payload: frame.payload@ },
        ),
{
}

} // verus!

//! Commands: a sub-command byte and, for most of them, a JSON object.
use crate::device::AsFrame;
use crate::error::Error;
use crate::frame::{Frame, Message, OP_CMD};
use crate::json::{
    compact, compact_bytes, compact_members, insert, is_readable, is_simple, law_one_more_member,
    law_plain_text_is_quoted_as_it_is, new_object, number, object, parsed, quoted, reads_as, signed,
    text, to_vec, tree, without_nul, Json,
};
use crate::text::{same_text, signed_decimal};
use serde_json::Value;
use vstd::prelude::*;
use vstd::utf8::encode_utf8;

pub mod sub;

verus! {

/// What kind of file is announced.
#[derive(Clone, Debug)]
pub enum FilePushType {
    /// The tunables that a firmware update pushes first.
    DeviceConfig,
    /// The firmware itself.
    Dfu,
    /// A track's stem.
    Track,
    /// Any other kind, by its name.
    Other(String),
}

impl FilePushType {
    /// The kind's name in the announcement.
    pub open spec fn name(self) -> Seq<char> {
        match self {
            FilePushType::DeviceConfig => "device-config"@,
            FilePushType::Dfu => "dfu"@,
            FilePushType::Track => "track"@,
            FilePushType::Other(s) => s@,
        }
    }

    pub fn as_str(&self) -> (res: &str)
        ensures
            res@ == self.name(),
    {
        match self {
            FilePushType::DeviceConfig => "device-config",
            FilePushType::Dfu => "dfu",
            FilePushType::Track => "track",
            FilePushType::Other(s) => s.as_str(),
        }
    }

    /// The kind of this name.
    pub fn from_name(name: &str) -> (res: FilePushType)
        ensures
            res.name() == name@,
            name@ == "device-config"@ <==> res is DeviceConfig,
            name@ == "dfu"@ <==> res is Dfu,
            name@ == "track"@ <==> res is Track,
    {
        proof {
            reveal_strlit("device-config");
            reveal_strlit("dfu");
            reveal_strlit("track");
        }
        if same_text(name, "device-config") {
            FilePushType::DeviceConfig
        } else if same_text(name, "dfu") {
            FilePushType::Dfu
        } else if same_text(name, "track") {
            FilePushType::Track
        } else {
            FilePushType::Other(name.to_owned())
        }
    }
}

/// Whether `payload` is the JSON text of `j` closed by a NUL. The NUL is the
/// first one, and what stands before it reads as `j` again.
pub open spec fn carries(payload: Seq<u8>, j: Json) -> bool {
    &&& payload == compact_bytes(j).push(0)
    &&& without_nul(compact_bytes(j))
    &&& is_readable(j) ==> reads_as(compact_bytes(j), j)
}

/// The JSON text of `json` closed by a NUL.
pub fn closed_json(json: &Value) -> (res: Result<Vec<u8>, Error>)
    ensures
        res is Ok,
        carries(res->Ok_0@, tree(*json)),
{
    match to_vec(json) {
        Ok(mut bytes) => {
            bytes.push(0);
            Ok(bytes)
        },
        Err(e) => Err(Error::Json(e)),
    }
}

/// A command: a sub-command byte and what follows it.
#[derive(Clone, Debug)]
pub struct Cmd04 {
    pub sub: u8,
    pub payload: Vec<u8>,
}

/// The object `{"album": slot}`.
pub open spec fn album_tree(slot: Seq<char>) -> Json {
    Json::Object(seq![("album"@, Json::Text(slot))])
}

/// The object `{"album": album, "track": track}`.
pub open spec fn track_tree(album: Seq<char>, track: Seq<char>) -> Json {
    Json::Object(seq![("album"@, Json::Text(album)), ("track"@, Json::Text(track))])
}

/// The object `{"challenge": n}`.
pub open spec fn challenge_tree(n: int) -> Json {
    Json::Object(seq![("challenge"@, number(n))])
}

fn album_value(slot: &str) -> (res: Value)
    ensures
        tree(res) == album_tree(slot@),
{
    let mut m = new_object();
    insert(&mut m, "album", text(slot));
    let res: Value = object(m);
    assert(tree(res)->Object_0 =~= album_tree(slot@)->Object_0);
    res
}

fn track_value(album: &str, track: &str) -> (res: Value)
    ensures
        tree(res) == track_tree(album@, track@),
{
    proof {
        reveal_strlit("album");
        reveal_strlit("track");
        assert("album"@[0] != "track"@[0]);
    }
    let mut m = new_object();
    insert(&mut m, "album", text(album));
    insert(&mut m, "track", text(track));
    let res: Value = object(m);
    assert(tree(res)->Object_0 =~= track_tree(album@, track@)->Object_0);
    res
}

impl Cmd04 {
    /// A command of the sub-command byte alone.
    pub fn bare(sub: u8) -> (res: Cmd04)
        ensures
            res.sub == sub,
            res.payload@ == Seq::<u8>::empty(),
    {
        Cmd04 { sub, payload: Vec::new() }
    }

    /// A command with a JSON payload, closed by a NUL.
    pub fn with_json(sub: u8, json: &Value) -> (res: Result<Cmd04, Error>)
        ensures
            res is Ok,
            res->Ok_0.sub == sub,
            carries(res->Ok_0.payload@, tree(*json)),
    {
        match closed_json(json) {
            Ok(payload) => Ok(Cmd04 { sub, payload }),
            Err(e) => Err(e),
        }
    }

    /// A command with a JSON payload where there is one.
    pub fn with_optional_json(sub: u8, json: Option<&Value>) -> (res: Result<Cmd04, Error>)
        ensures
            res is Ok,
            res->Ok_0.sub == sub,
            match json {
                Some(v) => carries(res->Ok_0.payload@, tree(*v)),
                None => res->Ok_0.payload@ == Seq::<u8>::empty(),
            },
    {
        match json {
            Some(v) => Cmd04::with_json(sub, v),
            None => Ok(Cmd04::bare(sub)),
        }
    }

    /// Asks for the configuration of an album slot.
    pub fn select_album(slot: &str) -> (res: Result<Cmd04, Error>)
        ensures
            res is Ok,
            res->Ok_0.sub == sub::SELECT_ALBUM,
            carries(res->Ok_0.payload@, album_tree(slot@)),
            res->Ok_0.message() == (Message {
                op: 0x04,
                payload: seq![0x05u8] + encode_utf8("{\"album\":"@ + quoted(slot@) + "}"@).push(0),
            }),
    {
        proof {
            law_text_for_an_album(slot@);
        }
        Cmd04::with_json(sub::SELECT_ALBUM, &album_value(slot))
    }

    /// Asks for the configuration of a track.
    pub fn select_track(album: &str, track: &str) -> (res: Result<Cmd04, Error>)
        ensures
            res is Ok,
            res->Ok_0.sub == sub::SELECT_TRACK,
            carries(res->Ok_0.payload@, track_tree(album@, track@)),
            res->Ok_0.message() == (Message {
                op: 0x04,
                payload: seq![0x06u8] + encode_utf8(
                    "{\"album\":"@ + quoted(album@) + ",\"track\":"@ + quoted(track@) + "}"@,
                ).push(0),
            }),
    {
        proof {
            law_text_for_a_track(album@, track@);
        }
        Cmd04::with_json(sub::SELECT_TRACK, &track_value(album, track))
    }

    /// Creates an album slot.
    pub fn add_album(slot: &str) -> (res: Result<Cmd04, Error>)
        ensures
            res is Ok,
            res->Ok_0.sub == sub::ADD_ALBUM,
            carries(res->Ok_0.payload@, album_tree(slot@)),
            res->Ok_0.message() == (Message {
                op: 0x04,
                payload: seq![0x08u8] + encode_utf8("{\"album\":"@ + quoted(slot@) + "}"@).push(0),
            }),
    {
        proof {
            law_text_for_an_album(slot@);
        }
        Cmd04::with_json(sub::ADD_ALBUM, &album_value(slot))
    }

    /// Deletes an album and all its tracks.
    pub fn delete_album(slot: &str) -> (res: Result<Cmd04, Error>)
        ensures
            res is Ok,
            res->Ok_0.sub == sub::DELETE_ALBUM,
            carries(res->Ok_0.payload@, album_tree(slot@)),
            res->Ok_0.message() == (Message {
                op: 0x04,
                payload: seq![0x09u8] + encode_utf8("{\"album\":"@ + quoted(slot@) + "}"@).push(0),
            }),
    {
        proof {
            law_text_for_an_album(slot@);
        }
        Cmd04::with_json(sub::DELETE_ALBUM, &album_value(slot))
    }

    /// Deletes one track.
    pub fn delete_track(album: &str, track: &str) -> (res: Result<Cmd04, Error>)
        ensures
            res is Ok,
            res->Ok_0.sub == sub::DELETE_TRACK,
            carries(res->Ok_0.payload@, track_tree(album@, track@)),
            res->Ok_0.message() == (Message {
                op: 0x04,
                payload: seq![0x0au8] + encode_utf8(
                    "{\"album\":"@ + quoted(album@) + ",\"track\":"@ + quoted(track@) + "}"@,
                ).push(0),
            }),
    {
        proof {
            law_text_for_a_track(album@, track@);
        }
        Cmd04::with_json(sub::DELETE_TRACK, &track_value(album, track))
    }

    /// Hands the device an authentication challenge.
    pub fn challenge(n: i32) -> (res: Result<Cmd04, Error>)
        ensures
            res is Ok,
            res->Ok_0.sub == sub::CHALLENGE,
            carries(res->Ok_0.payload@, challenge_tree(n as int)),
            res->Ok_0.message() == (Message {
                op: 0x04,
                payload: seq![0x12u8] + encode_utf8(
                    "{\"challenge\":"@ + signed_decimal(n as int) + "}"@,
                ).push(0),
            }),
    {
        proof {
            law_text_for_a_challenge(n as int);
        }
        let mut m = new_object();
        insert(&mut m, "challenge", signed(n));
        let v: Value = object(m);
        assert(tree(v)->Object_0 =~= challenge_tree(n as int)->Object_0);
        Cmd04::with_json(sub::CHALLENGE, &v)
    }
}

impl AsFrame for Cmd04 {
    open spec fn message(&self) -> Message {
        Message { op: OP_CMD, payload: seq![self.sub] + self.payload@ }
    }

    fn as_frame(&self) -> (res: Frame) {
        let mut payload: Vec<u8> = Vec::new();
        payload.push(self.sub);
        payload.extend_from_slice(self.payload.as_slice());
        assert(payload@ =~= seq![self.sub] + self.payload@);
        Frame::new(OP_CMD, payload)
    }
}

proof fn lemma_plain_keys()
    ensures
        quoted("album"@) == "\"album\""@,
        quoted("track"@) == "\"track\""@,
        quoted("challenge"@) == "\"challenge\""@,
{
    reveal_strlit("album");
    reveal_strlit("track");
    reveal_strlit("challenge");
    reveal_strlit("\"album\"");
    reveal_strlit("\"track\"");
    reveal_strlit("\"challenge\"");
    law_plain_text_is_quoted_as_it_is("album"@);
    law_plain_text_is_quoted_as_it_is("track"@);
    law_plain_text_is_quoted_as_it_is("challenge"@);
    assert(quoted("album"@) =~= "\"album\""@);
    assert(quoted("track"@) =~= "\"track\""@);
    assert(quoted("challenge"@) =~= "\"challenge\""@);
}

/// The text that selects, creates or deletes an album: the one member is the
/// slot.
pub proof fn law_text_for_an_album(slot: Seq<char>)
    ensures
        compact(album_tree(slot)) == "{\"album\":"@ + quoted(slot) + "}"@,
{
    lemma_plain_keys();
    let none = Seq::<(Seq<char>, Json)>::empty();
    law_one_more_member(none, "album"@, Json::Text(slot));
    assert(none.push(("album"@, Json::Text(slot))) =~= seq![("album"@, Json::Text(slot))]);
    reveal_strlit("{\"album\":");
    reveal_strlit("\"album\"");
    reveal_strlit("}");
    assert(compact_members(none) =~= Seq::empty());
    assert(compact(album_tree(slot)) =~= "{\"album\":"@ + quoted(slot) + "}"@);
}

/// The text that selects or deletes a track: the album first, then the track.
pub proof fn law_text_for_a_track(album: Seq<char>, track: Seq<char>)
    ensures
        compact(track_tree(album, track)) == "{\"album\":"@ + quoted(album) + ",\"track\":"@
            + quoted(track) + "}"@,
{
    lemma_plain_keys();
    let none = Seq::<(Seq<char>, Json)>::empty();
    let one = none.push(("album"@, Json::Text(album)));
    law_one_more_member(none, "album"@, Json::Text(album));
    law_one_more_member(one, "track"@, Json::Text(track));
    assert(one.push(("track"@, Json::Text(track))) =~= seq![
        ("album"@, Json::Text(album)),
        ("track"@, Json::Text(track)),
    ]);
    reveal_strlit("{\"album\":");
    reveal_strlit(",\"track\":");
    reveal_strlit("\"album\"");
    reveal_strlit("\"track\"");
    reveal_strlit("}");
    assert(compact_members(none) =~= Seq::empty());
    assert(compact(track_tree(album, track)) =~= "{\"album\":"@ + quoted(album)
        + ",\"track\":"@ + quoted(track) + "}"@);
}

/// The text that hands a challenge over: the number itself, not a text.
pub proof fn law_text_for_a_challenge(n: int)
    ensures
        compact(challenge_tree(n)) == "{\"challenge\":"@ + signed_decimal(n) + "}"@,
{
    lemma_plain_keys();
    let none = Seq::<(Seq<char>, Json)>::empty();
    law_one_more_member(none, "challenge"@, number(n));
    assert(none.push(("challenge"@, number(n))) =~= seq![("challenge"@, number(n))]);
    reveal_strlit("{\"challenge\":");
    reveal_strlit("\"challenge\"");
    reveal_strlit("}");
    assert(compact_members(none) =~= Seq::empty());
    assert(compact(challenge_tree(n)) =~= "{\"challenge\":"@ + signed_decimal(n) + "}"@);
}

/// A device that reads a command's JSON up to the first NUL finds the JSON that
/// was sent, and nothing stands behind that NUL.
pub proof fn law_command_is_understood(payload: Seq<u8>, j: Json)
    requires
        carries(payload, j),
    ensures
        payload.len() > 0,
        payload.last() == 0,
        forall|i: int| 0 <= i < payload.len() - 1 ==> #[trigger] payload[i] != 0,
        payload.drop_last() == encode_utf8(compact(j)),
        is_simple(j, 127) ==> parsed(payload.drop_last()) == Ok::<Json, Seq<char>>(j),
{
    assert(payload.drop_last() =~= compact_bytes(j));
    assert forall|i: int| 0 <= i < payload.len() - 1 implies #[trigger] payload[i] != 0 by {
        assert(payload[i] == compact_bytes(j)[i]);
    }
}

/// The frame of a command: opcode 0x04, and the sub-command's byte in front of
/// what it carries.
pub proof fn law_frame_of_a_command(c: Cmd04)
    ensures
        c.message().op == 0x04,
        c.message().payload.len() == c.payload@.len() + 1,
        c.message().payload[0] == c.sub,
        c.message().payload.skip(1) == c.payload@,
{
    assert(c.message().payload.skip(1) =~= c.payload@);
}

/// A type of file that has no name of its own goes by the one that it was given.
pub proof fn law_names_of_file_types(t: FilePushType)
    ensures
        t is Other ==> t.name() == t->Other_0@,
        t is DeviceConfig ==> t.name() == "device-config"@,
        t is Dfu ==> t.name() == "dfu"@,
        t is Track ==> t.name() == "track"@,
{
}

/// The bytes by which the device knows the commands.
pub proof fn law_bytes_of_the_commands()
    ensures
        sub::REBOOT == 0x00 && sub::SESSION_BEGIN == 0x00,
        sub::VERSION == 0x01,
        sub::GET_STORAGE_INFO == 0x02 && sub::SESSION_END == 0x02,
        sub::GET_TRACKS_INFO == 0x03 && sub::ENUM_BEGIN == 0x03,
        sub::GET_DEVICE_CONFIG == 0x04,
        sub::GET_ALBUM_CONFIG == 0x05 && sub::SELECT_ALBUM == 0x05,
        sub::GET_TRACK_CONFIG == 0x06 && sub::SELECT_TRACK == 0x06,
        sub::GET_ALBUM_COVER == 0x07,
        sub::ADD_ALBUM == 0x08,
        sub::DELETE_ALBUM == 0x09,
        sub::DELETE_TRACK == 0x0a,
        sub::GET_MUSIC_FILE == 0x0b,
        sub::GET_RECORDING_SLOTS == 0x0c,
        sub::GET_RECORDING == 0x0d,
        sub::DELETE_RECORDING == 0x0e,
        sub::RENAME_ALBUM == 0x0f,
        sub::MOVE_TRACK == 0x10,
        sub::GET_STATE_OF_CHARGE == 0x11,
        sub::CHALLENGE == 0x12,
{
}

} // verus!

//! What the device makes of an upload: the files that come out of the frames,
//! and what happens between them.
use crate::bundle::{
    album_config, album_header, album_meta, file_steps, law_headers_are_exact, pause, script, sends,
    stem_header, stem_meta, stem_number, track_config, track_header, track_meta, track_metadata,
    PushStep, Stage, Step, Upload,
};
use crate::files::{
    body, body_pieces, chunk_message, header_message, law_typed_file_is_received, received,
    typed_header, typed_messages, Received,
};
use crate::frame::Message;
use crate::json::{
    compact, compact_members, law_members_are_found, law_one_more_member,
    law_plain_text_is_quoted_as_it_is, member, number, parsed, pretty, quoted, Json,
};
use crate::sequence::frames_in;
use crate::text::{decimal, law_decimal_digits, lowercase, uppercase};
use crate::upload::{identifier, is_upload_of, song_upload, Stems};
use vstd::prelude::*;
use vstd::utf8::encode_utf8;

verus! {

proof fn lemma_frames_join(a: Seq<Step>, b: Seq<Step>)
    ensures
        frames_in(a + b) == frames_in(a) + frames_in(b),
    decreases b.len(),
{
    if b.len() == 0 {
        assert(a + b =~= a);
        assert(frames_in(a) + frames_in(b) =~= frames_in(a));
    } else {
        lemma_frames_join(a, b.drop_last());
        assert((a + b).drop_last() =~= a + b.drop_last());
        assert(frames_in(a + b) =~= frames_in(a) + frames_in(b));
    }
}

proof fn lemma_frames_sent(list: Seq<Message>)
    ensures
        frames_in(sends(list)) == list,
    decreases list.len(),
{
    if list.len() == 0 {
        assert(frames_in(sends(list)) =~= list);
    } else {
        lemma_frames_sent(list.drop_last());
        assert(sends(list).drop_last() =~= sends(list.drop_last()));
        assert(list.drop_last().push(list.last()) =~= list);
    }
}

proof fn lemma_frames_of_one(step: Step)
    requires
        step !is Send,
    ensures
        frames_in(seq![step]) == Seq::<Message>::empty(),
{
    reveal_with_fuel(frames_in, 2);
    assert(seq![step].drop_last() =~= Seq::empty());
}

/// What the device has received once the steps of one more file were done.
proof fn lemma_one_more_file(before: Seq<Step>, stage: Stage, meta: Json, bytes: Seq<u8>, nul: bool)
    ensures
        received(frames_in(before + file_steps(stage, meta, bytes, nul))) == received(
            frames_in(before),
        ).push(
            Received {
                header: encode_utf8(
                    compact(typed_header(meta, body(bytes, nul).len() as int)),
                ).push(0),
                body: body(bytes, nul),
            },
        ),
{
    let files = typed_messages(meta, bytes, nul);
    lemma_frames_of_one(Step::Stage(stage));
    lemma_frames_sent(files);
    lemma_frames_join(seq![Step::Stage(stage)], sends(files));
    assert(Seq::<Message>::empty() + files =~= files);
    lemma_frames_join(before, file_steps(stage, meta, bytes, nul));
    law_typed_file_is_received(frames_in(before), meta, bytes, nul);
}

proof fn lemma_nothing_received(before: Seq<Step>, step: Step)
    requires
        step !is Send,
    ensures
        frames_in(before + seq![step]) == frames_in(before),
{
    lemma_frames_of_one(step);
    lemma_frames_join(before, seq![step]);
    assert(frames_in(before) + Seq::<Message>::empty() =~= frames_in(before));
}

/// The text of the header of an album's configuration.
proof fn lemma_album_text(album: Seq<char>, size: nat)
    ensures
        compact(album_header(album, size as int)) == "{\"size\":"@ + decimal(size)
            + ",\"type\":\"album-config\",\"album\":"@ + quoted(album) + "}"@,
{
    lemma_names();
    let none = Seq::<(Seq<char>, Json)>::empty();
    let one = none.push(("size"@, number(size as int)));
    let two = one.push(("type"@, Json::Text("album-config"@)));
    let three = two.push(("album"@, Json::Text(album)));
    law_one_more_member(none, "size"@, number(size as int));
    law_one_more_member(one, "type"@, Json::Text("album-config"@));
    law_one_more_member(two, "album"@, Json::Text(album));
    assert(three =~= album_header(album, size as int)->Object_0);
    assert(compact_members(none) =~= Seq::empty());
    let c1 = "{\"size\":"@ + decimal(size);
    let c2 = c1 + ",\"type\":\"album-config\",\"album\":"@ + quoted(album);
    reveal_strlit("{\"size\":");
    reveal_strlit(",\"type\":\"album-config\",\"album\":");
    reveal_strlit("}");
    assert(seq!['{'] + compact_members(one) =~= c1);
    assert(seq!['{'] + compact_members(three) =~= c2);
    assert(compact(album_header(album, size as int)) =~= c2 + "}"@);
}

/// The text of the header of a stem.
proof fn lemma_stem_text(album: Seq<char>, track: Seq<char>, stem: nat, size: nat)
    ensures
        compact(stem_header(album, track, stem as int, size as int)) == "{\"size\":"@
            + decimal(size) + ",\"type\":\"stem-audio-mp3\",\"track\":"@ + quoted(track)
            + ",\"album\":"@ + quoted(album) + ",\"stem\":"@ + decimal(stem) + "}"@,
{
    lemma_names();
    let none = Seq::<(Seq<char>, Json)>::empty();
    let one = none.push(("size"@, number(size as int)));
    let two = one.push(("type"@, Json::Text("stem-audio-mp3"@)));
    let three = two.push(("track"@, Json::Text(track)));
    let four = three.push(("album"@, Json::Text(album)));
    let five = four.push(("stem"@, number(stem as int)));
    law_one_more_member(none, "size"@, number(size as int));
    law_one_more_member(one, "type"@, Json::Text("stem-audio-mp3"@));
    law_one_more_member(two, "track"@, Json::Text(track));
    law_one_more_member(three, "album"@, Json::Text(album));
    law_one_more_member(four, "stem"@, number(stem as int));
    assert(five =~= stem_header(album, track, stem as int, size as int)->Object_0);
    assert(compact_members(none) =~= Seq::empty());
    let c1 = "{\"size\":"@ + decimal(size);
    let c3 = c1 + ",\"type\":\"stem-audio-mp3\",\"track\":"@ + quoted(track);
    let c4 = c3 + ",\"album\":"@ + quoted(album);
    let c5 = c4 + ",\"stem\":"@ + decimal(stem);
    reveal_strlit("{\"size\":");
    reveal_strlit(",\"type\":\"stem-audio-mp3\",\"track\":");
    reveal_strlit(",\"album\":");
    reveal_strlit(",\"stem\":");
    reveal_strlit("}");
    assert(seq!['{'] + compact_members(one) =~= c1);
    assert(seq!['{'] + compact_members(three) =~= c3);
    assert(seq!['{'] + compact_members(four) =~= c4);
    assert(seq!['{'] + compact_members(five) =~= c5);
    assert(compact(stem_header(album, track, stem as int, size as int)) =~= c5 + "}"@);
}

/// The text of the header of a track's configuration.
proof fn lemma_track_text(album: Seq<char>, track: Seq<char>, size: nat)
    ensures
        compact(track_header(album, track, size as int)) == "{\"size\":"@ + decimal(size)
            + ",\"type\":\"track-config\",\"track\":"@ + quoted(track) + ",\"album\":"@
            + quoted(album) + "}"@,
{
    lemma_names();
    let none = Seq::<(Seq<char>, Json)>::empty();
    let one = none.push(("size"@, number(size as int)));
    let two = one.push(("type"@, Json::Text("track-config"@)));
    let three = two.push(("track"@, Json::Text(track)));
    let four = three.push(("album"@, Json::Text(album)));
    law_one_more_member(none, "size"@, number(size as int));
    law_one_more_member(one, "type"@, Json::Text("track-config"@));
    law_one_more_member(two, "track"@, Json::Text(track));
    law_one_more_member(three, "album"@, Json::Text(album));
    assert(four =~= track_header(album, track, size as int)->Object_0);
    assert(compact_members(none) =~= Seq::empty());
    let c1 = "{\"size\":"@ + decimal(size);
    let c3 = c1 + ",\"type\":\"track-config\",\"track\":"@ + quoted(track);
    let c4 = c3 + ",\"album\":"@ + quoted(album);
    reveal_strlit("{\"size\":");
    reveal_strlit(",\"type\":\"track-config\",\"track\":");
    reveal_strlit(",\"album\":");
    reveal_strlit("}");
    assert(seq!['{'] + compact_members(one) =~= c1);
    assert(seq!['{'] + compact_members(three) =~= c3);
    assert(seq!['{'] + compact_members(four) =~= c4);
    assert(compact(track_header(album, track, size as int)) =~= c4 + "}"@);
}

/// The names in the headers stand between quotes as they are.
proof fn lemma_names()
    ensures
        quoted("size"@) == seq!['"', 's', 'i', 'z', 'e', '"'],
        quoted("type"@) == seq!['"', 't', 'y', 'p', 'e', '"'],
        quoted("album"@) == seq!['"', 'a', 'l', 'b', 'u', 'm', '"'],
        quoted("track"@) == seq!['"', 't', 'r', 'a', 'c', 'k', '"'],
        quoted("stem"@) == seq!['"', 's', 't', 'e', 'm', '"'],
        quoted("album-config"@) == seq!['"'] + "album-config"@ + seq!['"'],
        quoted("track-config"@) == seq!['"'] + "track-config"@ + seq!['"'],
        quoted("stem-audio-mp3"@) == seq!['"'] + "stem-audio-mp3"@ + seq!['"'],
        "album-config"@ == seq!['a', 'l', 'b', 'u', 'm', '-', 'c', 'o', 'n', 'f', 'i', 'g'],
        "track-config"@ == seq!['t', 'r', 'a', 'c', 'k', '-', 'c', 'o', 'n', 'f', 'i', 'g'],
        "stem-audio-mp3"@ == seq![
            's',
            't',
            'e',
            'm',
            '-',
            'a',
            'u',
            'd',
            'i',
            'o',
            '-',
            'm',
            'p',
            '3',
        ],
{
    reveal_strlit("size");
    reveal_strlit("type");
    reveal_strlit("album");
    reveal_strlit("track");
    reveal_strlit("stem");
    reveal_strlit("album-config");
    reveal_strlit("track-config");
    reveal_strlit("stem-audio-mp3");
    law_plain_text_is_quoted_as_it_is("size"@);
    law_plain_text_is_quoted_as_it_is("type"@);
    law_plain_text_is_quoted_as_it_is("album"@);
    law_plain_text_is_quoted_as_it_is("track"@);
    law_plain_text_is_quoted_as_it_is("stem"@);
    law_plain_text_is_quoted_as_it_is("album-config"@);
    law_plain_text_is_quoted_as_it_is("track-config"@);
    law_plain_text_is_quoted_as_it_is("stem-audio-mp3"@);
    assert(quoted("size"@) =~= seq!['"', 's', 'i', 'z', 'e', '"']);
    assert(quoted("type"@) =~= seq!['"', 't', 'y', 'p', 'e', '"']);
    assert(quoted("album"@) =~= seq!['"', 'a', 'l', 'b', 'u', 'm', '"']);
    assert(quoted("track"@) =~= seq!['"', 't', 'r', 'a', 'c', 'k', '"']);
    assert(quoted("stem"@) =~= seq!['"', 's', 't', 'e', 'm', '"']);
    assert("album-config"@ =~= seq!['a', 'l', 'b', 'u', 'm', '-', 'c', 'o', 'n', 'f', 'i', 'g']);
    assert("track-config"@ =~= seq!['t', 'r', 'a', 'c', 'k', '-', 'c', 'o', 'n', 'f', 'i', 'g']);
    assert("stem-audio-mp3"@ =~= seq![
        's',
        't',
        'e',
        'm',
        '-',
        'a',
        'u',
        'd',
        'i',
        'o',
        '-',
        'm',
        'p',
        '3',
    ]);
}

/// Whether the file is a stem: its header gives its size, the track, the album
/// and the stem's number, and its body is exactly the stem.
pub open spec fn is_stem(
    f: Received,
    album: Seq<char>,
    track: Seq<char>,
    stem: nat,
    bytes: Seq<u8>,
) -> bool {
    &&& f.header == encode_utf8(
        "{\"size\":"@ + decimal(bytes.len()) + ",\"type\":\"stem-audio-mp3\",\"track\":"@ + quoted(
            track,
        ) + ",\"album\":"@ + quoted(album) + ",\"stem\":"@ + decimal(stem) + "}"@,
    ).push(0)
    &&& f.body == bytes
}

proof fn lemma_stem_received(before: Seq<Step>, b: Upload, stage: Stage, bytes: Seq<u8>)
    requires
        0 <= stem_number(stage),
    ensures
        ({
            let files = received(frames_in(before + b.stem_steps(stage, bytes)));
            &&& files.len() == received(frames_in(before)).len() + 1
            &&& files.drop_last() == received(frames_in(before))
            &&& is_stem(
                files.last(),
                b.album_id,
                lowercase(b.track_id),
                stem_number(stage) as nat,
                bytes,
            )
        }),
{
    let track = lowercase(b.track_id);
    let stem = stem_number(stage);
    law_headers_are_exact(b.album_id, track, stem, bytes.len() as int);
    lemma_stem_text(b.album_id, track, stem as nat, bytes.len());
    lemma_one_more_file(before, stage, stem_meta(b.album_id, track, stem), bytes, false);
    let files = received(frames_in(before + b.stem_steps(stage, bytes)));
    assert(files.drop_last() =~= received(frames_in(before)));
}

/// The device that gets an upload has six files in the end: the album's
/// configuration, the vocals as stem 2, the bass as stem 3, the drums as stem 4,
/// everything else as stem 1, and the track's configuration, closed by a zero.
/// Each stem has arrived byte for byte under its own number.
pub proof fn law_upload_is_received(b: Upload)
    ensures
        ({
            let files = received(frames_in(b.steps()));
            let track = lowercase(b.track_id);
            let album_body = encode_utf8(
                pretty(
                    Json::Object(
                        seq![
                            ("id"@, Json::Text(uppercase(b.album_id))),
                            ("global_id"@, Json::Text(b.global_id)),
                            ("artist"@, Json::Text(b.artist)),
                            ("title"@, Json::Text(b.album_title)),
                            ("version"@, Json::Text("1"@)),
                            ("tracks"@, Json::Null),
                        ],
                    ),
                    0,
                ),
            );
            let track_body = encode_utf8(
                pretty(
                    Json::Object(
                        seq![
                            (
                                "TrackColour"@,
                                Json::Array(seq![Json::Text("#E03E3E"@), Json::Text("#FFFFFF"@)]),
                            ),
                            (
                                "tempos"@,
                                Json::Array(
                                    seq![
                                        Json::Object(
                                            seq![
                                                ("time_ms"@, number(0)),
                                                ("tempo_bpm"@, number(120)),
                                            ],
                                        ),
                                    ],
                                ),
                            ),
                            ("TrackGain_dB"@, number(0)),
                            (
                                "metadata"@,
                                Json::Object(
                                    seq![
                                        ("artist"@, Json::Text(b.artist)),
                                        ("title"@, Json::Text(b.track_title)),
                                        ("global_id"@, Json::Text(b.global_id)),
                                        ("meta_version"@, Json::Text("1"@)),
                                        ("stems_version"@, Json::Text("1"@)),
                                        ("timestamp"@, Json::Text(b.timestamp)),
                                    ],
                                ),
                            ),
                        ],
                    ),
                    0,
                ),
            ).push(0);
            &&& files.len() == 6
            &&& files[0].header == encode_utf8(
                "{\"size\":"@ + decimal(album_body.len())
                    + ",\"type\":\"album-config\",\"album\":"@ + quoted(b.album_id) + "}"@,
            ).push(0)
            &&& files[0].body == album_body
            &&& is_stem(files[1], b.album_id, track, 2, b.vocals)
            &&& is_stem(files[2], b.album_id, track, 3, b.bass)
            &&& is_stem(files[3], b.album_id, track, 4, b.drums)
            &&& is_stem(files[4], b.album_id, track, 1, b.other)
            &&& files[5].header == encode_utf8(
                "{\"size\":"@ + decimal(track_body.len())
                    + ",\"type\":\"track-config\",\"track\":"@ + quoted(track)
                    + ",\"album\":"@ + quoted(b.album_id) + "}"@,
            ).push(0)
            &&& files[5].body == track_body
        }),
{
    let none = Seq::<Step>::empty();
    let wait = Step::Wait(crate::bundle::SETTLE_MS as int);
    let track = lowercase(b.track_id);
    let s0 = file_steps(Stage::AlbumConfig, album_meta(b.album_id), b.album_body(), false);
    let s1 = s0 + pause() + b.stem_steps(Stage::Vocals, b.vocals);
    let s2 = s1 + pause() + b.stem_steps(Stage::Bass, b.bass);
    let s3 = s2 + pause() + b.stem_steps(Stage::Drums, b.drums);
    let s4 = s3 + pause() + b.stem_steps(Stage::Other, b.other);
    let last = file_steps(
        Stage::TrackConfig,
        track_meta(b.album_id, track),
        b.track_body(),
        true,
    );
    let s5 = s4 + pause() + last;
    assert(none + s0 =~= s0);
    law_headers_are_exact(b.album_id, track, 0, b.album_body().len() as int);
    law_headers_are_exact(b.album_id, track, 0, b.track_body().len() as int + 1);
    lemma_album_text(b.album_id, b.album_body().len());
    lemma_track_text(b.album_id, track, b.track_body().len() + 1);
    lemma_one_more_file(
        none,
        Stage::AlbumConfig,
        album_meta(b.album_id),
        b.album_body(),
        false,
    );
    lemma_nothing_received(s0, wait);
    lemma_stem_received(s0 + pause(), b, Stage::Vocals, b.vocals);
    lemma_nothing_received(s1, wait);
    lemma_stem_received(s1 + pause(), b, Stage::Bass, b.bass);
    lemma_nothing_received(s2, wait);
    lemma_stem_received(s2 + pause(), b, Stage::Drums, b.drums);
    lemma_nothing_received(s3, wait);
    lemma_stem_received(s3 + pause(), b, Stage::Other, b.other);
    lemma_nothing_received(s4, wait);
    lemma_one_more_file(
        s4 + pause(),
        Stage::TrackConfig,
        track_meta(b.album_id, track),
        b.track_body(),
        true,
    );
    lemma_nothing_received(s5, Step::Stage(Stage::Done));
    let f0 = received(frames_in(s0));
    let f1 = received(frames_in(s1));
    let f2 = received(frames_in(s2));
    let f3 = received(frames_in(s3));
    let f4 = received(frames_in(s4));
    let files = received(frames_in(b.steps()));
    assert(f0.len() == 1);
    assert(files[0] == f4[0] && f4[0] == f4.drop_last()[0] && f3[0] == f3.drop_last()[0] && f2[0]
        == f2.drop_last()[0] && f1[0] == f1.drop_last()[0]);
    assert(files[1] == f4[1] && f4[1] == f4.drop_last()[1] && f3[1] == f3.drop_last()[1] && f2[1]
        == f2.drop_last()[1]);
    assert(files[2] == f4[2] && f4[2] == f4.drop_last()[2] && f3[2] == f3.drop_last()[2]);
    assert(files[3] == f4[3] && f4[3] == f4.drop_last()[3]);
}

/// What the host does besides sending a file's pieces: it tells the user of a
/// stage, waits for so many milliseconds, or announces a file.
pub ghost enum Mark {
    Told(Stage),
    Waited(int),
    Announced(Seq<u8>),
}

/// The marks of some steps, in order.
pub open spec fn marks(list: Seq<Step>) -> Seq<Mark>
    decreases list.len(),
{
    if list.len() == 0 {
        Seq::empty()
    } else {
        let before = marks(list.drop_last());
        match list.last() {
            Step::Stage(stage) => before.push(Mark::Told(stage)),
            Step::Wait(ms) => before.push(Mark::Waited(ms)),
            Step::Send(m) => if m.op == 0x06 {
                before.push(Mark::Announced(m.payload))
            } else {
                before
            },
        }
    }
}

proof fn lemma_marks_join(a: Seq<Step>, b: Seq<Step>)
    ensures
        marks(a + b) == marks(a) + marks(b),
    decreases b.len(),
{
    if b.len() == 0 {
        assert(a + b =~= a);
        assert(marks(a) + marks(b) =~= marks(a));
    } else {
        lemma_marks_join(a, b.drop_last());
        assert((a + b).drop_last() =~= a + b.drop_last());
        assert(marks(a + b) =~= marks(a) + marks(b));
    }
}

proof fn lemma_no_marks(parts: Seq<Seq<u8>>)
    ensures
        marks(sends(parts.map_values(|p: Seq<u8>| chunk_message(p)))) == Seq::<Mark>::empty(),
    decreases parts.len(),
{
    if parts.len() > 0 {
        lemma_no_marks(parts.drop_last());
        assert(sends(parts.map_values(|p: Seq<u8>| chunk_message(p))).drop_last() =~= sends(
            parts.drop_last().map_values(|p: Seq<u8>| chunk_message(p)),
        ));
    }
}

proof fn lemma_marks_of_a_file(
    before: Seq<Step>,
    stage: Stage,
    meta: Json,
    bytes: Seq<u8>,
    nul: bool,
)
    ensures
        marks(before + file_steps(stage, meta, bytes, nul)) == marks(before).push(
            Mark::Told(stage),
        ).push(
            Mark::Announced(
                encode_utf8(compact(typed_header(meta, body(bytes, nul).len() as int))).push(0),
            ),
        ),
{
    let header = header_message(typed_header(meta, body(bytes, nul).len() as int));
    let parts = body_pieces(bytes, nul);
    let chunks = sends(parts.map_values(|p: Seq<u8>| chunk_message(p)));
    let told = before.push(Step::Stage(stage));
    let announced = told.push(Step::Send(header));
    assert(told.drop_last() =~= before);
    assert(announced.drop_last() =~= told);
    assert(marks(told) == marks(before).push(Mark::Told(stage)));
    assert(marks(announced) == marks(told).push(Mark::Announced(header.payload)));
    assert(before + file_steps(stage, meta, bytes, nul) =~= announced + chunks);
    lemma_no_marks(parts);
    lemma_marks_join(announced, chunks);
    assert(marks(announced) + Seq::<Mark>::empty() =~= marks(announced));
}

proof fn lemma_marks_of_a_pause(before: Seq<Step>)
    ensures
        marks(before + pause()) == marks(before).push(Mark::Waited(250)),
{
    let after = before + pause();
    assert(after.drop_last() =~= before);
}

/// During an upload the user is told of each stage before its file is announced,
/// and the device is given a quarter of a second between any two files.
pub proof fn law_course_of_an_upload(b: Upload)
    ensures
        ({
            let files = received(frames_in(b.steps()));
            marks(b.steps()) == seq![
                Mark::Told(Stage::AlbumConfig),
                Mark::Announced(files[0].header),
                Mark::Waited(250),
                Mark::Told(Stage::Vocals),
                Mark::Announced(files[1].header),
                Mark::Waited(250),
                Mark::Told(Stage::Bass),
                Mark::Announced(files[2].header),
                Mark::Waited(250),
                Mark::Told(Stage::Drums),
                Mark::Announced(files[3].header),
                Mark::Waited(250),
                Mark::Told(Stage::Other),
                Mark::Announced(files[4].header),
                Mark::Waited(250),
                Mark::Told(Stage::TrackConfig),
                Mark::Announced(files[5].header),
                Mark::Told(Stage::Done),
            ]
        }),
{
    lemma_announcements(b);
    lemma_course(b);
}

proof fn lemma_course(b: Upload)
    ensures
        ({
            let track = lowercase(b.track_id);
            marks(b.steps()) == seq![
                Mark::Told(Stage::AlbumConfig),
                Mark::Announced(
                    encode_utf8(
                        compact(
                            typed_header(
                                album_meta(b.album_id),
                                b.album_body().len() as int,
                            ),
                        ),
                    ).push(0),
                ),
                Mark::Waited(250),
                Mark::Told(Stage::Vocals),
                Mark::Announced(
                    encode_utf8(
                        compact(
                            typed_header(
                                stem_meta(b.album_id, track, 2),
                                b.vocals.len() as int,
                            ),
                        ),
                    ).push(0),
                ),
                Mark::Waited(250),
                Mark::Told(Stage::Bass),
                Mark::Announced(
                    encode_utf8(
                        compact(
                            typed_header(
                                stem_meta(b.album_id, track, 3),
                                b.bass.len() as int,
                            ),
                        ),
                    ).push(0),
                ),
                Mark::Waited(250),
                Mark::Told(Stage::Drums),
                Mark::Announced(
                    encode_utf8(
                        compact(
                            typed_header(
                                stem_meta(b.album_id, track, 4),
                                b.drums.len() as int,
                            ),
                        ),
                    ).push(0),
                ),
                Mark::Waited(250),
                Mark::Told(Stage::Other),
                Mark::Announced(
                    encode_utf8(
                        compact(
                            typed_header(
                                stem_meta(b.album_id, track, 1),
                                b.other.len() as int,
                            ),
                        ),
                    ).push(0),
                ),
                Mark::Waited(250),
                Mark::Told(Stage::TrackConfig),
                Mark::Announced(
                    encode_utf8(
                        compact(
                            typed_header(
                                track_meta(b.album_id, track),
                                b.track_body().len() as int + 1,
                            ),
                        ),
                    ).push(0),
                ),
                Mark::Told(Stage::Done),
            ]
        }),
{
    let track = lowercase(b.track_id);
    let none = Seq::<Step>::empty();
    let s0 = file_steps(Stage::AlbumConfig, album_meta(b.album_id), b.album_body(), false);
    let s1 = s0 + pause() + b.stem_steps(Stage::Vocals, b.vocals);
    let s2 = s1 + pause() + b.stem_steps(Stage::Bass, b.bass);
    let s3 = s2 + pause() + b.stem_steps(Stage::Drums, b.drums);
    let s4 = s3 + pause() + b.stem_steps(Stage::Other, b.other);
    let s5 = s4 + pause() + file_steps(
        Stage::TrackConfig,
        track_meta(b.album_id, track),
        b.track_body(),
        true,
    );
    assert(none + s0 =~= s0);
    lemma_marks_of_a_file(none, Stage::AlbumConfig, album_meta(b.album_id), b.album_body(), false);
    lemma_marks_of_a_pause(s0);
    lemma_marks_of_a_file(
        s0 + pause(),
        Stage::Vocals,
        stem_meta(b.album_id, track, 2),
        b.vocals,
        false,
    );
    lemma_marks_of_a_pause(s1);
    lemma_marks_of_a_file(
        s1 + pause(),
        Stage::Bass,
        stem_meta(b.album_id, track, 3),
        b.bass,
        false,
    );
    lemma_marks_of_a_pause(s2);
    lemma_marks_of_a_file(
        s2 + pause(),
        Stage::Drums,
        stem_meta(b.album_id, track, 4),
        b.drums,
        false,
    );
    lemma_marks_of_a_pause(s3);
    lemma_marks_of_a_file(
        s3 + pause(),
        Stage::Other,
        stem_meta(b.album_id, track, 1),
        b.other,
        false,
    );
    lemma_marks_of_a_pause(s4);
    lemma_marks_of_a_file(
        s4 + pause(),
        Stage::TrackConfig,
        track_meta(b.album_id, track),
        b.track_body(),
        true,
    );
    let done = s5.push(Step::Stage(Stage::Done));
    assert(done.drop_last() =~= s5);
    assert(b.steps() =~= done);
    assert(marks(none) =~= Seq::empty());
}

/// The headers of the six files are those that were written for them.
proof fn lemma_announcements(b: Upload)
    ensures
        ({
            let files = received(frames_in(b.steps()));
            let track = lowercase(b.track_id);
            &&& files.len() == 6
            &&& files[0].header == encode_utf8(
                compact(typed_header(album_meta(b.album_id), b.album_body().len() as int)),
            ).push(0)
            &&& files[1].header == encode_utf8(
                compact(typed_header(stem_meta(b.album_id, track, 2), b.vocals.len() as int)),
            ).push(0)
            &&& files[2].header == encode_utf8(
                compact(typed_header(stem_meta(b.album_id, track, 3), b.bass.len() as int)),
            ).push(0)
            &&& files[3].header == encode_utf8(
                compact(typed_header(stem_meta(b.album_id, track, 4), b.drums.len() as int)),
            ).push(0)
            &&& files[4].header == encode_utf8(
                compact(typed_header(stem_meta(b.album_id, track, 1), b.other.len() as int)),
            ).push(0)
            &&& files[5].header == encode_utf8(
                compact(
                    typed_header(
                        track_meta(b.album_id, track),
                        b.track_body().len() as int + 1,
                    ),
                ),
            ).push(0)
        }),
{
    let track = lowercase(b.track_id);
    law_upload_is_received(b);
    law_headers_are_exact(b.album_id, track, 0, b.album_body().len() as int);
    law_headers_are_exact(b.album_id, track, 2, b.vocals.len() as int);
    law_headers_are_exact(b.album_id, track, 3, b.bass.len() as int);
    law_headers_are_exact(b.album_id, track, 4, b.drums.len() as int);
    law_headers_are_exact(b.album_id, track, 1, b.other.len() as int);
    law_headers_are_exact(b.album_id, track, 0, b.track_body().len() as int + 1);
    lemma_album_text(b.album_id, b.album_body().len());
    lemma_stem_text(b.album_id, track, 2, b.vocals.len());
    lemma_stem_text(b.album_id, track, 3, b.bass.len());
    lemma_stem_text(b.album_id, track, 4, b.drums.len());
    lemma_stem_text(b.album_id, track, 1, b.other.len());
    lemma_track_text(b.album_id, track, b.track_body().len() + 1);
}

/// The device that gets a song has its vocals as stem 2, its bass as stem 3, its
/// drums as stem 4 and the rest as stem 1 of the first track of the album, each
/// byte for byte; the album and the track are both called by the song's title.
pub proof fn law_song_is_received(
    steps: Seq<PushStep>,
    album_id: Seq<char>,
    title: Seq<char>,
    track_name: Seq<char>,
    stems: Stems<'_>,
    timestamp: Seq<char>,
)
    requires
        is_upload_of(steps, song_upload(album_id, title, track_name, stems, timestamp)),
    ensures
        ({
            let files = received(frames_in(script(steps)));
            &&& files.len() == 6
            &&& files[1].body == stems.vocals@
            &&& files[1].header == encode_utf8(
                "{\"size\":"@ + decimal(stems.vocals@.len())
                    + ",\"type\":\"stem-audio-mp3\",\"track\":"@ + quoted(lowercase("t1"@))
                    + ",\"album\":"@ + quoted(album_id) + ",\"stem\":2}"@,
            ).push(0)
            &&& files[2].body == stems.bass@
            &&& files[2].header == encode_utf8(
                "{\"size\":"@ + decimal(stems.bass@.len())
                    + ",\"type\":\"stem-audio-mp3\",\"track\":"@ + quoted(lowercase("t1"@))
                    + ",\"album\":"@ + quoted(album_id) + ",\"stem\":3}"@,
            ).push(0)
            &&& files[3].body == stems.drums@
            &&& files[3].header == encode_utf8(
                "{\"size\":"@ + decimal(stems.drums@.len())
                    + ",\"type\":\"stem-audio-mp3\",\"track\":"@ + quoted(lowercase("t1"@))
                    + ",\"album\":"@ + quoted(album_id) + ",\"stem\":4}"@,
            ).push(0)
            &&& files[4].body == stems.other@
            &&& files[4].header == encode_utf8(
                "{\"size\":"@ + decimal(stems.other@.len())
                    + ",\"type\":\"stem-audio-mp3\",\"track\":"@ + quoted(lowercase("t1"@))
                    + ",\"album\":"@ + quoted(album_id) + ",\"stem\":1}"@,
            ).push(0)
            &&& parsed(files[0].body) matches Ok(album) && {
                &&& member(album, "id"@) == Some(Json::Text(uppercase(album_id)))
                &&& member(album, "global_id"@) == Some(Json::Text(identifier(track_name)))
                &&& member(album, "artist"@) == Some(Json::Text("Katika upload"@))
                &&& member(album, "title"@) == Some(Json::Text(title))
            }
            &&& files[5].body.last() == 0
            &&& parsed(files[5].body.drop_last()) matches Ok(track) && member(
                track,
                "metadata"@,
            ) matches Some(about) && {
                &&& member(about, "artist"@) == Some(Json::Text("Katika upload"@))
                &&& member(about, "title"@) == Some(Json::Text(title))
                &&& member(about, "global_id"@) == Some(Json::Text(identifier(track_name)))
                &&& member(about, "timestamp"@) == Some(Json::Text(timestamp))
            }
        }),
{
    let u = song_upload(album_id, title, track_name, stems, timestamp);
    law_upload_is_received(u);
    lemma_stem_numbers();
    lemma_config_members(u);
    let files = received(frames_in(script(steps)));
    assert(files[5].body.drop_last() =~= u.track_body());
    let front = |n: nat| "{\"size\":"@ + decimal(n)
        + ",\"type\":\"stem-audio-mp3\",\"track\":"@ + quoted(lowercase("t1"@)) + ",\"album\":"@
        + quoted(album_id);
    lemma_ends_with_number(front(stems.vocals@.len()));
    lemma_ends_with_number(front(stems.bass@.len()));
    lemma_ends_with_number(front(stems.drums@.len()));
    lemma_ends_with_number(front(stems.other@.len()));
}

proof fn lemma_ends_with_number(front: Seq<char>)
    ensures
        front + ",\"stem\":"@ + decimal(1) + "}"@ == front + ",\"stem\":1}"@,
        front + ",\"stem\":"@ + decimal(2) + "}"@ == front + ",\"stem\":2}"@,
        front + ",\"stem\":"@ + decimal(3) + "}"@ == front + ",\"stem\":3}"@,
        front + ",\"stem\":"@ + decimal(4) + "}"@ == front + ",\"stem\":4}"@,
{
    lemma_stem_numbers();
    assert(front + ",\"stem\":"@ + decimal(1) + "}"@ =~= front + (",\"stem\":"@ + decimal(1)
        + "}"@));
    assert(front + ",\"stem\":"@ + decimal(2) + "}"@ =~= front + (",\"stem\":"@ + decimal(2)
        + "}"@));
    assert(front + ",\"stem\":"@ + decimal(3) + "}"@ =~= front + (",\"stem\":"@ + decimal(3)
        + "}"@));
    assert(front + ",\"stem\":"@ + decimal(4) + "}"@ =~= front + (",\"stem\":"@ + decimal(4)
        + "}"@));
}

proof fn lemma_stem_numbers()
    ensures
        ",\"stem\":"@ + decimal(1) + "}"@ == ",\"stem\":1}"@,
        ",\"stem\":"@ + decimal(2) + "}"@ == ",\"stem\":2}"@,
        ",\"stem\":"@ + decimal(3) + "}"@ == ",\"stem\":3}"@,
        ",\"stem\":"@ + decimal(4) + "}"@ == ",\"stem\":4}"@,
{
    law_decimal_digits(0, 1);
    law_decimal_digits(0, 2);
    law_decimal_digits(0, 3);
    law_decimal_digits(0, 4);
    reveal_strlit(",\"stem\":");
    reveal_strlit("}");
    reveal_strlit(",\"stem\":1}");
    reveal_strlit(",\"stem\":2}");
    reveal_strlit(",\"stem\":3}");
    reveal_strlit(",\"stem\":4}");
    assert(",\"stem\":"@ + decimal(1) + "}"@ =~= ",\"stem\":1}"@);
    assert(",\"stem\":"@ + decimal(2) + "}"@ =~= ",\"stem\":2}"@);
    assert(",\"stem\":"@ + decimal(3) + "}"@ =~= ",\"stem\":3}"@);
    assert(",\"stem\":"@ + decimal(4) + "}"@ =~= ",\"stem\":4}"@);
}

/// What a reader finds under the names in the two configurations.
proof fn lemma_config_members(u: Upload)
    ensures
        ({
            let album = album_config(
                uppercase(u.album_id),
                u.global_id,
                u.artist,
                u.album_title,
            );
            let about = track_metadata(u.artist, u.track_title, u.global_id, u.timestamp);
            &&& member(album, "id"@) == Some(Json::Text(uppercase(u.album_id)))
            &&& member(album, "global_id"@) == Some(Json::Text(u.global_id))
            &&& member(album, "artist"@) == Some(Json::Text(u.artist))
            &&& member(album, "title"@) == Some(Json::Text(u.album_title))
            &&& member(track_config(about), "metadata"@) == Some(about)
            &&& member(about, "artist"@) == Some(Json::Text(u.artist))
            &&& member(about, "title"@) == Some(Json::Text(u.track_title))
            &&& member(about, "global_id"@) == Some(Json::Text(u.global_id))
            &&& member(about, "timestamp"@) == Some(Json::Text(u.timestamp))
        }),
{
    let album = album_config(uppercase(u.album_id), u.global_id, u.artist, u.album_title);
    let about = track_metadata(u.artist, u.track_title, u.global_id, u.timestamp);
    let track = track_config(about);
    reveal_strlit("id");
    reveal_strlit("global_id");
    reveal_strlit("artist");
    reveal_strlit("title");
    reveal_strlit("version");
    reveal_strlit("tracks");
    reveal_strlit("meta_version");
    reveal_strlit("stems_version");
    reveal_strlit("timestamp");
    reveal_strlit("TrackColour");
    reveal_strlit("tempos");
    reveal_strlit("TrackGain_dB");
    reveal_strlit("metadata");
    assert("artist"@[0] == 'a' && "tracks"@[0] == 't' && "global_id"@[0] == 'g' && "timestamp"@[0]
        == 't');
    assert("id"@.len() == 2 && "global_id"@.len() == 9 && "artist"@.len() == 6);
    assert("title"@.len() == 5 && "version"@.len() == 7 && "tracks"@.len() == 6);
    assert("meta_version"@.len() == 12 && "stems_version"@.len() == 13 && "timestamp"@.len() == 9);
    assert("TrackColour"@.len() == 11 && "tempos"@.len() == 6);
    assert("TrackGain_dB"@.len() == 12 && "metadata"@.len() == 8);
    law_members_are_found(album->Object_0, 0);
    law_members_are_found(album->Object_0, 1);
    law_members_are_found(album->Object_0, 2);
    law_members_are_found(album->Object_0, 3);
    law_members_are_found(about->Object_0, 0);
    law_members_are_found(about->Object_0, 1);
    law_members_are_found(about->Object_0, 2);
    law_members_are_found(about->Object_0, 5);
    law_members_are_found(track->Object_0, 3);
}

/// The stems of an upload are the second to the fifth file.
pub proof fn law_stems_are_received(b: Upload)
    ensures
        ({
            let files = received(frames_in(b.steps()));
            &&& files.len() == 6
            &&& is_stem(files[1], b.album_id, lowercase(b.track_id), 2, b.vocals)
            &&& is_stem(files[2], b.album_id, lowercase(b.track_id), 3, b.bass)
            &&& is_stem(files[3], b.album_id, lowercase(b.track_id), 4, b.drums)
            &&& is_stem(files[4], b.album_id, lowercase(b.track_id), 1, b.other)
        }),
{
    law_upload_is_received(b);
}

} // verus!

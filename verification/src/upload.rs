//! An upload from the song to the device: what the track is called, how it is
//! identified, and what the user is told on the way.
use crate::bundle::{
    law_order_of_files, push_track_bundle, script, stages_in, PushStep, Stage, TrackBundle, Upload,
};
use crate::cache::{
    cache_track, deeds, keeping, law_particulars_are_named, law_what_is_kept, CacheStep,
    CachedStemPaths, Deed, Facts, StemPaths,
};
use crate::calendar::{format_unix_timestamp, stamp, Date, DAY, TIMESTAMP_LIMIT};
use crate::commands::{album_tree, carries, sub, Cmd04};
use crate::enumerate::slot_name;
use crate::error::Error;
use crate::files::received;
use crate::json::{items_at, member, parsed, Json};
use crate::library::{
    is_called, is_full, is_lowest_free, is_user_id, known_ids, law_fresh_slot_is_new_and_the_users,
    law_no_slot_is_left, law_picked_slot_is_no_albums, law_reply_is_found, pick_fresh_album_slot,
    reply_body,
};
use crate::paths::{file_stem, law_name_in_a_path, law_stem_and_extension, name_in, stem_in};
use crate::received::is_stem;
use crate::sequence::frames_in;
use crate::stems::SplitResult;
use crate::text::{
    ascii_lower, decimal, in_radix, joined, law_decimal_reads_back, pad_zeros, write_decimal,
    write_radix, zero_padded,
};
use vstd::prelude::*;
use vstd::utf8::{encode_utf8, is_ascii_chars};

verus! {

/// The hash of no bytes at all.
pub const HASH_START: u64 = 0xcbf29ce484222325;

/// What the hash is multiplied by for each byte.
pub const HASH_PRIME: u64 = 0x100000001b3;

/// The 64-bit FNV-1a hash.
pub open spec fn fnv1a(bytes: Seq<u8>) -> u64
    decreases bytes.len(),
{
    if bytes.len() == 0 {
        HASH_START
    } else {
        ((fnv1a(bytes.drop_last()) ^ (bytes.last() as u64)) * HASH_PRIME % 0x1_0000_0000_0000_0000)
            as u64
    }
}

fn hash_bytes(bytes: &[u8]) -> (res: u64)
    ensures
        res == fnv1a(bytes@),
{
    let mut hash: u64 = HASH_START;
    let mut i: usize = 0;
    assert(bytes@.take(0) =~= Seq::empty());
    while i < bytes.len()
        invariant
            i <= bytes@.len(),
            hash == fnv1a(bytes@.take(i as int)),
        decreases bytes@.len() - i,
    {
        assert(bytes@.take(i + 1).drop_last() =~= bytes@.take(i as int));
        hash = (hash ^ (bytes[i] as u64)).wrapping_mul(HASH_PRIME);
        i = i + 1;
    }
    assert(bytes@.take(bytes@.len() as int) =~= bytes@);
    hash
}

/// The identifier of a track of this name: a UUID whose last group is the low
/// 48 bits of the name's hash.
pub open spec fn identifier(name: Seq<char>) -> Seq<char> {
    "00000000-0000-0000-0000-"@ + zero_padded(
        in_radix((fnv1a(encode_utf8(name)) % 0x1_0000_0000_0000) as nat, 16),
        12,
    )
}

/// The identifier of a track of this name. It is the same at every upload.
pub fn global_id(track_name: &str) -> (res: String)
    ensures
        res@ == identifier(track_name@),
{
    let hash: u64 = hash_bytes(track_name.as_bytes());
    let low: String = write_radix(hash % 0x1_0000_0000_0000, 16);
    joined("00000000-0000-0000-0000-", pad_zeros(low.as_str(), 12).as_str())
}

/// The name of the directory that the stems of a song are split into.
pub fn work_dir_name(secs: u64) -> (res: String)
    ensures
        res@ == "stemplayer-mgr-"@ + decimal(secs as nat),
{
    joined("stemplayer-mgr-", write_decimal(secs).as_str())
}

/// The title of the song at this path: the stem of its file's name, where there
/// is one.
pub open spec fn title_of(path: Seq<char>) -> Seq<char> {
    match stem_in(path) {
        Some(t) => t,
        None => "Untitled"@,
    }
}

/// The title of the song at this path.
pub fn song_title(path: &str) -> (res: String)
    ensures
        res@ == title_of(path@),
{
    match file_stem(path) {
        Some(t) => t,
        None => "Untitled".to_owned(),
    }
}

/// The slot for an upload: the one that was picked, or a fixed one where none
/// could be.
pub fn slot_or_fallback(picked: Result<String, String>) -> (res: String)
    ensures
        res@ == (match picked {
            Ok(slot) => slot@,
            Err(_) => "A10"@,
        }),
{
    match picked {
        Ok(slot) => slot,
        Err(_) => "A10".to_owned(),
    }
}

/// The album that an upload is put into, and the command that creates it.
#[derive(Debug)]
pub struct NewAlbum {
    pub slot: String,
    pub create: Cmd04,
}

/// Whether the slot is the one for an upload, given the device's listing in a
/// response: the lowest free one, or a fixed one where there is no listing,
/// it cannot be read, or no slot is free.
pub open spec fn is_upload_slot(listing: Option<Seq<u8>>, slot: Seq<char>) -> bool {
    match upload_ids(listing) {
        Some(known) => if is_full(known) {
            slot == "A10"@
        } else {
            exists|n: nat| #[trigger] is_lowest_free(known, n) && slot == slot_name(n)
        },
        None => slot == "A10"@,
    }
}

/// The names of the albums in the listing, where it can be read.
pub open spec fn upload_ids(listing: Option<Seq<u8>>) -> Option<Seq<Seq<char>>> {
    match listing {
        Some(payload) => match parsed(reply_body(payload)) {
            Ok(j) => match items_at(j, "l"@) {
                Some(items) => Some(known_ids(items)),
                None => None,
            },
            Err(_) => None,
        },
        None => None,
    }
}

/// The album for an upload, from the reply to a request for the device's
/// listing, if there was one.
pub fn new_album(listing: Option<&[u8]>) -> (res: Result<NewAlbum, Error>)
    ensures
        res is Ok,
        is_upload_slot(
            match listing {
                Some(payload) => Some(payload@),
                None => None,
            },
            res->Ok_0.slot@,
        ),
        res->Ok_0.create.sub == sub::ADD_ALBUM,
        carries(res->Ok_0.create.payload@, album_tree(res->Ok_0.slot@)),
{
    let picked: Result<String, String> = match listing {
        Some(payload) => pick_fresh_album_slot(payload),
        None => Err("no listing".to_owned()),
    };
    let slot: String = slot_or_fallback(picked);
    let create: Cmd04 = Cmd04::add_album(slot.as_str())?;
    Ok(NewAlbum { slot, create })
}

/// What the user is told during an upload.
pub enum Notice {
    Preparing,
    Splitting,
    StemsReady,
    Reopening,
    CreatingSlot,
    Pushing(Stage),
    Done,
}

impl Notice {
    /// The name of the phase.
    pub open spec fn phase_name(self) -> Seq<char> {
        match self {
            Notice::Preparing => "preparing"@,
            Notice::Splitting => "splitting"@,
            Notice::StemsReady => "splitting"@,
            Notice::Reopening => "reopening"@,
            Notice::CreatingSlot => "creating-slot"@,
            Notice::Pushing(_) => "pushing"@,
            Notice::Done => "done"@,
        }
    }

    pub fn phase(&self) -> (res: &'static str)
        ensures
            res@ == self.phase_name(),
    {
        match self {
            Notice::Preparing => "preparing",
            Notice::Splitting => "splitting",
            Notice::StemsReady => "splitting",
            Notice::Reopening => "reopening",
            Notice::CreatingSlot => "creating-slot",
            Notice::Pushing(_) => "pushing",
            Notice::Done => "done",
        }
    }

    /// How much of the whole is done, in hundredths.
    pub open spec fn hundredths(self) -> u32 {
        match self {
            Notice::Preparing => 1,
            Notice::Splitting => 5,
            Notice::StemsReady => 60,
            Notice::Reopening => 62,
            Notice::CreatingSlot => 66,
            Notice::Pushing(stage) => match stage {
                Stage::AlbumConfig => 70,
                Stage::Vocals => 76,
                Stage::Bass => 82,
                Stage::Drums => 88,
                Stage::Other => 94,
                Stage::TrackConfig => 98,
                Stage::Done => 100,
            },
            Notice::Done => 100,
        }
    }

    pub fn percent(&self) -> (res: u32)
        ensures
            res == self.hundredths(),
    {
        match self {
            Notice::Preparing => 1,
            Notice::Splitting => 5,
            Notice::StemsReady => 60,
            Notice::Reopening => 62,
            Notice::CreatingSlot => 66,
            Notice::Pushing(stage) => match stage {
                Stage::AlbumConfig => 70,
                Stage::Vocals => 76,
                Stage::Bass => 82,
                Stage::Drums => 88,
                Stage::Other => 94,
                Stage::TrackConfig => 98,
                Stage::Done => 100,
            },
            Notice::Done => 100,
        }
    }

    /// What the user reads. `album` is the slot of the upload.
    pub open spec fn sentence(self, album: Seq<char>) -> Seq<char> {
        match self {
            Notice::Preparing => "Preparing…"@,
            Notice::Splitting => "Splitting song into stems…"@,
            Notice::StemsReady => "Stems ready"@,
            Notice::Reopening => "Reconnecting to device…"@,
            Notice::CreatingSlot => "Creating album slot "@ + album + "…"@,
            Notice::Pushing(stage) => match stage {
                Stage::AlbumConfig => "Uploading album info…"@,
                Stage::Vocals => "Uploading vocals…"@,
                Stage::Bass => "Uploading bass…"@,
                Stage::Drums => "Uploading drums…"@,
                Stage::Other => "Uploading other…"@,
                Stage::TrackConfig => "Finalizing on device…"@,
                Stage::Done => "Done"@,
            },
            Notice::Done => "Done"@,
        }
    }

    pub fn message(&self, album: &str) -> (res: String)
        ensures
            res@ == self.sentence(album@),
    {
        match self {
            Notice::Preparing => "Preparing…".to_owned(),
            Notice::Splitting => "Splitting song into stems…".to_owned(),
            Notice::StemsReady => "Stems ready".to_owned(),
            Notice::Reopening => "Reconnecting to device…".to_owned(),
            Notice::CreatingSlot => {
                let mut out: String = joined("Creating album slot ", album);
                out.append("…");
                out
            },
            Notice::Pushing(stage) => match stage {
                Stage::AlbumConfig => "Uploading album info…".to_owned(),
                Stage::Vocals => "Uploading vocals…".to_owned(),
                Stage::Bass => "Uploading bass…".to_owned(),
                Stage::Drums => "Uploading drums…".to_owned(),
                Stage::Other => "Uploading other…".to_owned(),
                Stage::TrackConfig => "Finalizing on device…".to_owned(),
                Stage::Done => "Done".to_owned(),
            },
            Notice::Done => "Done".to_owned(),
        }
    }
}

/// How long the device is waited for after the split, in milliseconds.
pub const REOPEN_WINDOW_MS: u64 = 15000;

/// How long to wait between two attempts, in milliseconds.
pub const REOPEN_PAUSE_MS: u64 = 750;

/// What to do after the device could not be opened, so many milliseconds after
/// the first attempt: wait for so long and try again, or give up.
pub fn reopen_pause(elapsed_ms: u64) -> (res: Option<u64>)
    ensures
        res == (if elapsed_ms < REOPEN_WINDOW_MS {
            Some(REOPEN_PAUSE_MS)
        } else {
            None
        }),
        res is Some <==> elapsed_ms < 15000,
        res is Some ==> res->0 == 750,
{
    if elapsed_ms < REOPEN_WINDOW_MS {
        Some(REOPEN_PAUSE_MS)
    } else {
        None
    }
}

/// What the user is told when the device stays away.
pub fn reopen_failure(work_dir: &str, cause: &str) -> (res: String)
    ensures
        res@
            == "device didn't come back online after split. Tap any button on the Stem Player and click Connect, then run split-and-push again. (stems are saved at "@
            + work_dir@ + " so you don't have to re-split.) Underlying: "@ + cause@,
{
    let mut out: String = joined(
        "device didn't come back online after split. Tap any button on the Stem Player and click Connect, then run split-and-push again. (stems are saved at ",
        work_dir,
    );
    out.append(" so you don't have to re-split.) Underlying: ");
    out.append(cause);
    out
}

/// The four stems of a song.
pub struct Stems<'a> {
    pub other: &'a [u8],
    pub vocals: &'a [u8],
    pub bass: &'a [u8],
    pub drums: &'a [u8],
}

/// The upload of a song into an album of its own, made on this day at this
/// second.
pub open spec fn song_upload(
    album_id: Seq<char>,
    title: Seq<char>,
    track_name: Seq<char>,
    stems: Stems<'_>,
    timestamp: Seq<char>,
) -> Upload {
    Upload {
        album_id,
        album_title: title,
        track_id: "t1"@,
        track_title: title,
        global_id: identifier(track_name),
        artist: "Katika upload"@,
        timestamp,
        other: stems.other@,
        vocals: stems.vocals@,
        bass: stems.bass@,
        drums: stems.drums@,
    }
}

/// Whether the steps are those of an upload whose configurations read back.
pub open spec fn is_upload_of(steps: Seq<PushStep>, u: Upload) -> bool {
    script(steps) == u.steps() && u.reads_back()
}

/// The steps that upload a song into an album of its own, at `now` seconds
/// since the beginning of 1970.
pub fn upload_song(
    album_id: &str,
    title: &str,
    track_name: &str,
    stems: &Stems<'_>,
    now: u64,
) -> (res: Result<Vec<PushStep>, Error>)
    requires
        now < TIMESTAMP_LIMIT,
    ensures
        res is Ok,
        exists|d: Date|
            d.valid() && #[trigger] d.number() == now / DAY && is_upload_of(
                res->Ok_0@,
                song_upload(
                    album_id@,
                    title@,
                    track_name@,
                    *stems,
                    stamp(d, now as int % DAY as int),
                ),
            ),
        ({
            let files = received(frames_in(script(res->Ok_0@)));
            &&& files.len() == 6
            &&& is_stem(files[1], album_id@, "t1"@, 2, stems.vocals@)
            &&& is_stem(files[2], album_id@, "t1"@, 3, stems.bass@)
            &&& is_stem(files[3], album_id@, "t1"@, 4, stems.drums@)
            &&& is_stem(files[4], album_id@, "t1"@, 1, stems.other@)
        }),
{
    let global_id: String = global_id(track_name);
    let timestamp: String = format_unix_timestamp(now);
    let ghost d = choose|d: Date|
        d.valid() && #[trigger] d.number() == now / DAY && timestamp@ == stamp(
            d,
            now as int % DAY as int,
        );
    let bundle = TrackBundle {
        album_id,
        album_title: title,
        track_id: "t1",
        track_title: title,
        global_id: global_id.as_str(),
        artist: "Katika upload",
        timestamp: timestamp.as_str(),
        other: stems.other,
        vocals: stems.vocals,
        bass: stems.bass,
        drums: stems.drums,
    };
    assert(bundle@ =~= song_upload(album_id@, title@, track_name@, *stems, timestamp@));
    assert(d.number() == now / DAY);
    proof {
        lemma_small_letters();
    }
    push_track_bundle(&bundle)
}

proof fn lemma_small_letters()
    ensures
        is_ascii_chars("t1"@),
        "t1"@.map_values(|c: char| ascii_lower(c)) == "t1"@,
{
    reveal_strlit("t1");
    assert("t1"@.map_values(|c: char| ascii_lower(c)) =~= "t1"@);
}

/// What is written down on the host of a song's upload.
pub open spec fn song_facts(
    album_id: Seq<char>,
    title: Seq<char>,
    track_name: Seq<char>,
    timestamp: Seq<char>,
) -> Facts {
    Facts {
        global_id: identifier(track_name),
        title,
        artist: "Katika upload"@,
        album_id,
        track_id: "t1"@,
        timestamp,
    }
}

/// Where the program left the four stems of a song.
pub open spec fn split_paths(split: SplitResult) -> StemPaths {
    StemPaths {
        vocals: split.vocals@,
        bass: split.bass@,
        drums: split.drums@,
        other: split.other@,
    }
}

/// Whether the steps keep a song with these particulars, which read back.
pub open spec fn is_keeping_of(
    steps: Seq<CacheStep>,
    root: Seq<char>,
    facts: Facts,
    stems: StemPaths,
    song: Seq<char>,
) -> bool {
    deeds(steps) == keeping(root, facts, stems, Some(song)) && facts.reads_back()
}

/// The steps that keep a song on the host after its upload: the stems that were
/// split, the song itself, and what the upload told the device of it. `now` is
/// that of the upload.
pub fn keep_song(
    root: &str,
    album_id: &str,
    title: &str,
    split: &SplitResult,
    song: &str,
    now: u64,
) -> (res: Vec<CacheStep>)
    requires
        now < TIMESTAMP_LIMIT,
    ensures
        exists|d: Date|
            d.valid() && #[trigger] d.number() == now / DAY && is_keeping_of(
                res@,
                root@,
                song_facts(
                    album_id@,
                    title@,
                    split.track_name@,
                    stamp(d, now as int % DAY as int),
                ),
                split_paths(*split),
                song@,
            ),
{
    let global_id: String = global_id(split.track_name.as_str());
    let timestamp: String = format_unix_timestamp(now);
    let ghost d = choose|d: Date|
        d.valid() && #[trigger] d.number() == now / DAY && timestamp@ == stamp(
            d,
            now as int % DAY as int,
        );
    let stems = CachedStemPaths {
        vocals: split.vocals.as_str(),
        bass: split.bass.as_str(),
        drums: split.drums.as_str(),
        other: split.other.as_str(),
    };
    assert(d.number() == now / DAY);
    cache_track(
        root,
        global_id.as_str(),
        title,
        "Katika upload",
        album_id,
        "t1",
        timestamp.as_str(),
        &stems,
        Some(song),
    )
}

/// What is written down on the host is what the device was told: the same
/// identifier, titles, artist, slot, track and timestamp.
pub proof fn law_kept_is_what_was_sent(
    album_id: Seq<char>,
    title: Seq<char>,
    track_name: Seq<char>,
    stems: Stems<'_>,
    timestamp: Seq<char>,
)
    ensures
        ({
            let sent = song_upload(album_id, title, track_name, stems, timestamp);
            song_facts(album_id, title, track_name, timestamp) == (Facts {
                global_id: sent.global_id,
                title: sent.track_title,
                artist: sent.artist,
                album_id: sent.album_id,
                track_id: sent.track_id,
                timestamp: sent.timestamp,
            })
        }),
        song_upload(album_id, title, track_name, stems, timestamp).album_title == title,
{
}

/// An upload always goes into one of the user's slots, and into one that the
/// device does not have as long as a slot is free.
pub proof fn law_upload_takes_a_new_slot(listing: Option<Seq<u8>>, slot: Seq<char>)
    requires
        is_upload_slot(listing, slot),
    ensures
        is_user_id(slot),
        match upload_ids(listing) {
            Some(known) => !is_full(known) ==> !known.contains(slot),
            None => true,
        },
{
    if slot == "A10"@ {
        reveal_strlit("A10");
        reveal_strlit("A");
        law_decimal_reads_back(10);
        reveal_with_fuel(in_radix, 2);
        assert(decimal(10) =~= seq!['1', '0']);
        assert(slot.drop_first() =~= decimal(10));
    }
    if let Some(known) = upload_ids(listing) {
        if !is_full(known) {
            let n = choose|n: nat| #[trigger] is_lowest_free(known, n) && slot == slot_name(n);
            law_fresh_slot_is_new_and_the_users(known, n);
        }
    }
}

/// Whether the character is a hexadecimal digit in lower case.
pub open spec fn is_hex_digit(c: char) -> bool {
    '0' <= c <= '9' || 'a' <= c <= 'f'
}

/// Whether the text has the shape of a UUID: five groups of hexadecimal digits
/// with dashes between them.
pub open spec fn is_uuid(t: Seq<char>) -> bool {
    &&& t.len() == 36
    &&& t[8] == '-' && t[13] == '-' && t[18] == '-' && t[23] == '-'
    &&& forall|i: int|
        0 <= i < 36 && i != 8 && i != 13 && i != 18 && i != 23 ==> is_hex_digit(#[trigger] t[i])
}

proof fn lemma_hex_length(n: nat, width: nat)
    requires
        width >= 1,
        n < vstd::arithmetic::power::pow(16, width),
    ensures
        1 <= in_radix(n, 16).len() <= width,
        forall|i: int|
            0 <= i < in_radix(n, 16).len() ==> is_hex_digit(#[trigger] in_radix(n, 16)[i]),
    decreases width,
{
    reveal(vstd::arithmetic::power::pow);
    if n >= 16 {
        assert(width >= 2) by {
            if width == 1 {
                assert(vstd::arithmetic::power::pow(16, 1) == 16) by {
                    vstd::arithmetic::power::lemma_pow1(16);
                }
            }
        }
        assert(n / 16 < vstd::arithmetic::power::pow(16, (width - 1) as nat));
        lemma_hex_length(n / 16, (width - 1) as nat);
    }
}

/// Every identifier has the shape of a UUID.
pub proof fn law_identifiers_are_uuids(name: Seq<char>)
    ensures
        is_uuid(identifier(name)),
{
    let n = (fnv1a(encode_utf8(name)) % 0x1_0000_0000_0000) as nat;
    assert(vstd::arithmetic::power::pow(16, 12) == 0x1_0000_0000_0000) by {
        reveal_with_fuel(vstd::arithmetic::power::pow, 13);
    }
    lemma_hex_length(n, 12);
    reveal_strlit("00000000-0000-0000-0000-");
    let head = "00000000-0000-0000-0000-"@;
    let tail = zero_padded(in_radix(n, 16), 12);
    let t = identifier(name);
    assert(head.len() == 24 && tail.len() == 12);
    assert forall|i: int|
        0 <= i < 36 && i != 8 && i != 13 && i != 18 && i != 23 implies is_hex_digit(
        #[trigger] t[i],
    ) by {
        if i >= 24 {
            assert(t[i] == tail[i - 24]);
        } else {
            assert(t[i] == head[i]);
            assert(head[i] == '0');
        }
    }
}

/// The notices that come with an upload, in order: some before anything is
/// sent, one for each stage, and one at the end.
pub open spec fn notices(u: Upload) -> Seq<Notice> {
    seq![
        Notice::Preparing,
        Notice::Splitting,
        Notice::StemsReady,
        Notice::Reopening,
        Notice::CreatingSlot,
    ] + stages_in(u.steps()).map_values(|stage: Stage| Notice::Pushing(stage)) + seq![Notice::Done]
}

/// The bar that the user sees never goes back, and ends full.
#[verifier::rlimit(40)]
pub proof fn law_progress_never_goes_back(u: Upload)
    ensures
        forall|i: int, j: int|
            0 <= i <= j < notices(u).len() ==> (#[trigger] notices(u)[i]).hundredths() <= (
            #[trigger] notices(u)[j]).hundredths(),
        notices(u).last().hundredths() == 100,
{
    assert(stages_in(u.steps()) == seq![
        Stage::AlbumConfig,
        Stage::Vocals,
        Stage::Bass,
        Stage::Drums,
        Stage::Other,
        Stage::TrackConfig,
        Stage::Done,
    ]) by {
        law_order_of_files(u);
    }
    assert(notices(u) =~= seq![
        Notice::Preparing,
        Notice::Splitting,
        Notice::StemsReady,
        Notice::Reopening,
        Notice::CreatingSlot,
        Notice::Pushing(Stage::AlbumConfig),
        Notice::Pushing(Stage::Vocals),
        Notice::Pushing(Stage::Bass),
        Notice::Pushing(Stage::Drums),
        Notice::Pushing(Stage::Other),
        Notice::Pushing(Stage::TrackConfig),
        Notice::Pushing(Stage::Done),
        Notice::Done,
    ]);
}

/// The hash of a text with one more byte: the byte goes into the lowest bits,
/// and the whole is multiplied by the prime, with what overflows cut off.
pub proof fn law_hash_of_one_more_byte(bytes: Seq<u8>, b: u8)
    ensures
        fnv1a(Seq::empty()) == 0xcbf2_9ce4_8422_2325,
        fnv1a(bytes.push(b)) as int == ((fnv1a(bytes) ^ (b as u64)) as int * 0x100_0000_01b3)
            % 0x1_0000_0000_0000_0000,
{
    assert(bytes.push(b).drop_last() =~= bytes);
}

/// The value of some hexadecimal digits in small letters.
pub open spec fn hex_value(t: Seq<char>) -> int
    decreases t.len(),
{
    if t.len() == 0 {
        0
    } else {
        let c = t.last();
        16 * hex_value(t.drop_last()) + (if '0' <= c <= '9' {
            c as int - '0' as int
        } else {
            c as int - 'a' as int + 10
        })
    }
}

proof fn lemma_hex_value(n: nat)
    ensures
        hex_value(in_radix(n, 16)) == n,
    decreases n,
{
    let t = in_radix(n, 16);
    if n < 16 {
        assert(t.drop_last() =~= Seq::empty());
        assert(hex_value(t.drop_last()) == 0);
    } else {
        lemma_hex_value(n / 16);
        assert(t.drop_last() =~= in_radix(n / 16, 16));
    }
}

proof fn lemma_zeros_in_front(zeros: nat, t: Seq<char>)
    ensures
        hex_value(Seq::new(zeros, |i: int| '0') + t) == hex_value(t),
    decreases zeros + t.len(),
{
    let all = Seq::new(zeros, |i: int| '0') + t;
    if t.len() > 0 {
        lemma_zeros_in_front(zeros, t.drop_last());
        assert(all.drop_last() =~= Seq::new(zeros, |i: int| '0') + t.drop_last());
        assert(all.last() == t.last());
    } else if zeros > 0 {
        lemma_zeros_in_front((zeros - 1) as nat, t);
        assert(all.drop_last() =~= Seq::new((zeros - 1) as nat, |i: int| '0') + t);
        assert(all.last() == '0');
    }
}

/// The last group of an identifier is the low 48 bits of the hash of the name,
/// and all the others are zero.
pub proof fn law_identifier_holds_the_hash(name: Seq<char>)
    ensures
        identifier(name).len() == 36,
        identifier(name).take(24) == "00000000-0000-0000-0000-"@,
        hex_value(identifier(name).skip(24)) == fnv1a(encode_utf8(name)) as int
            % 0x1_0000_0000_0000,
{
    law_identifiers_are_uuids(name);
    let n = (fnv1a(encode_utf8(name)) % 0x1_0000_0000_0000) as nat;
    let digits = in_radix(n, 16);
    reveal_strlit("00000000-0000-0000-0000-");
    assert(identifier(name).take(24) =~= "00000000-0000-0000-0000-"@);
    assert(identifier(name).skip(24) =~= zero_padded(digits, 12));
    lemma_hex_value(n);
    if digits.len() < 12 {
        lemma_zeros_in_front((12 - digits.len()) as nat, digits);
    }
}

/// What the user reads, and how full the bar is, at each point of an upload.
pub proof fn law_what_notices_say(album: Seq<char>)
    ensures
        Notice::Preparing.sentence(album) == "Preparing…"@,
        Notice::Splitting.sentence(album) == "Splitting song into stems…"@,
        Notice::StemsReady.sentence(album) == "Stems ready"@,
        Notice::Reopening.sentence(album) == "Reconnecting to device…"@,
        Notice::CreatingSlot.sentence(album) == "Creating album slot "@ + album + "…"@,
        Notice::Pushing(Stage::AlbumConfig).sentence(album) == "Uploading album info…"@,
        Notice::Pushing(Stage::Vocals).sentence(album) == "Uploading vocals…"@,
        Notice::Pushing(Stage::Bass).sentence(album) == "Uploading bass…"@,
        Notice::Pushing(Stage::Drums).sentence(album) == "Uploading drums…"@,
        Notice::Pushing(Stage::Other).sentence(album) == "Uploading other…"@,
        Notice::Pushing(Stage::TrackConfig).sentence(album) == "Finalizing on device…"@,
        Notice::Pushing(Stage::Done).sentence(album) == "Done"@,
        Notice::Done.sentence(album) == "Done"@,
        Notice::Preparing.hundredths() == 1 && Notice::Splitting.hundredths() == 5,
        Notice::StemsReady.hundredths() == 60 && Notice::Reopening.hundredths() == 62,
        Notice::CreatingSlot.hundredths() == 66,
        Notice::Pushing(Stage::AlbumConfig).hundredths() == 70,
        Notice::Pushing(Stage::Vocals).hundredths() == 76,
        Notice::Pushing(Stage::Bass).hundredths() == 82,
        Notice::Pushing(Stage::Drums).hundredths() == 88,
        Notice::Pushing(Stage::Other).hundredths() == 94,
        Notice::Pushing(Stage::TrackConfig).hundredths() == 98,
        Notice::Pushing(Stage::Done).hundredths() == 100 && Notice::Done.hundredths() == 100,
{
}

/// The phase that a notice belongs to.
pub proof fn law_phases(stage: Stage)
    ensures
        Notice::Preparing.phase_name() == "preparing"@,
        Notice::Splitting.phase_name() == "splitting"@,
        Notice::StemsReady.phase_name() == "splitting"@,
        Notice::Reopening.phase_name() == "reopening"@,
        Notice::CreatingSlot.phase_name() == "creating-slot"@,
        Notice::Pushing(stage).phase_name() == "pushing"@,
        Notice::Done.phase_name() == "done"@,
{
}

/// The title of a song is the name of its file without the extension, wherever
/// the file is.
pub proof fn law_title_of_a_song(dir: Seq<char>, title: Seq<char>, ext: Seq<char>, path: Seq<char>)
    requires
        title.len() > 0,
        !title.contains('/'),
        !ext.contains('/'),
        !ext.contains('.'),
        ext.len() > 0,
    ensures
        title_of(dir + seq!['/'] + (title + seq!['.'] + ext)) == title,
        title_of(title + seq!['.'] + ext) == title,
        name_in(path) is None ==> title_of(path) == "Untitled"@,
{
    let name = title + seq!['.'] + ext;
    assert forall|i: int| 0 <= i < name.len() implies name[i] != '/' by {
        if i < title.len() {
            assert(title.contains(title[i]));
        } else if i > title.len() {
            assert(ext.contains(ext[i - title.len() - 1]));
        }
    }
    assert(!name.contains('/'));
    assert(name.len() >= 3);
    law_name_in_a_path(dir, name);
    law_stem_and_extension(dir + seq!['/'] + name, title, ext);
    law_stem_and_extension(name, title, ext);
}

/// An upload goes into the lowest slot from A5 to A99 that no album of the
/// listing is called by, whatever else the albums hold; where there is none it
/// goes into A10.
pub proof fn law_slot_of_an_upload(
    sub: u8,
    body: Seq<u8>,
    nuls: nat,
    listing: Json,
    items: Seq<Json>,
    slot: Seq<char>,
)
    requires
        body.len() > 0 ==> body.last() != 0,
        parsed(body) == Ok::<Json, Seq<char>>(listing),
        member(listing, "l"@) == Some(Json::Array(items)),
        is_upload_slot(Some(seq![sub] + body + Seq::new(nuls, |i: int| 0u8)), slot),
    ensures
        ({
            ||| slot == "A10"@ && forall|m: nat|
                5 <= m <= 99 ==> is_called(items, "A"@ + #[trigger] decimal(m))
            ||| exists|n: nat|
                5 <= n <= 99 && slot == "A"@ + #[trigger] decimal(n) && !is_called(items, slot)
                    && forall|m: nat| 5 <= m < n ==> is_called(items, "A"@ + #[trigger] decimal(m))
        }),
{
    law_reply_is_found(sub, body, nuls);
    let known = known_ids(items);
    if is_full(known) {
        assert forall|m: nat| 5 <= m <= 99 implies is_called(
            items,
            "A"@ + #[trigger] decimal(m),
        ) by {
            law_no_slot_is_left(items, m);
        }
    } else {
        let n = choose|n: nat| #[trigger] is_lowest_free(known, n) && slot == slot_name(n);
        law_picked_slot_is_no_albums(items, n);
        assert forall|m: nat| 5 <= m < n implies is_called(items, "A"@ + #[trigger] decimal(m)) by {
            let i = choose|i: int|
                0 <= i < items.len() && #[trigger] member(items[i], "a"@) == Some(
                    Json::Text("A"@ + decimal(m)),
                );
            assert(member(items[i], "a"@) == Some(Json::Text("A"@ + decimal(m))));
        }
        assert(slot == "A"@ + decimal(n));
    }
}

/// Without a listing that can be read, an upload goes into A10.
pub proof fn law_slot_without_a_listing(payload: Seq<u8>, slot: Seq<char>)
    ensures
        is_upload_slot(None, slot) <==> slot == "A10"@,
        parsed(reply_body(payload)) is Err ==> (is_upload_slot(Some(payload), slot) <==> slot
            == "A10"@),
        parsed(reply_body(payload)) matches Ok(j) ==> !(member(j, "l"@) is Some && member(
            j,
            "l"@,
        )->0 is Array) ==> (is_upload_slot(Some(payload), slot) <==> slot == "A10"@),
{
}

/// What is kept of a song: its four stems, each under its own name, the song
/// itself, and the particulars by which it was uploaded.
pub proof fn law_song_is_kept(
    steps: Seq<CacheStep>,
    root: Seq<char>,
    album_id: Seq<char>,
    title: Seq<char>,
    split: SplitResult,
    timestamp: Seq<char>,
    song: Seq<char>,
)
    requires
        root.len() > 0,
        root.last() != '/',
        is_keeping_of(
            steps,
            root,
            song_facts(album_id, title, split.track_name@, timestamp),
            split_paths(split),
            song,
        ),
    ensures
        ({
            let dir = root + "/"@ + identifier(split.track_name@);
            let done = deeds(steps);
            &&& done.len() == 7
            &&& done[0] == Deed::MakeDir(dir)
            &&& done[1] == Deed::Copy(split.vocals@, dir + "/vocals.mp3"@)
            &&& done[2] == Deed::Copy(split.bass@, dir + "/bass.mp3"@)
            &&& done[3] == Deed::Copy(split.drums@, dir + "/drums.mp3"@)
            &&& done[4] == Deed::Copy(split.other@, dir + "/other.mp3"@)
            &&& done[5] matches Deed::TryCopy(from, _) && from == song
            &&& done[6] matches Deed::Write(to, bytes) && to == dir + "/track.json"@
            &&& done[6] matches Deed::Write(_, bytes) && parsed(bytes) matches Ok(j) && {
                &&& member(j, "global_id"@) == Some(Json::Text(identifier(split.track_name@)))
                &&& member(j, "title"@) == Some(Json::Text(title))
                &&& member(j, "artist"@) == Some(Json::Text("Katika upload"@))
                &&& member(j, "album_id"@) == Some(Json::Text(album_id))
                &&& member(j, "track_id"@) == Some(Json::Text("t1"@))
                &&& member(j, "stamp"@) == Some(Json::Text(timestamp))
            }
        }),
{
    let facts = song_facts(album_id, title, split.track_name@, timestamp);
    law_identifiers_are_uuids(split.track_name@);
    assert(is_hex_digit(facts.global_id[0]) && is_hex_digit(facts.global_id[35]));
    law_what_is_kept(root, facts, split_paths(split), Some(song));
    law_particulars_are_named(facts);
}

} // verus!

//! The walk over the album slots: which command goes out next, given how the
//! device took the last one.
//!
//! The device is never asked how many tracks an album has. Tracks are probed
//! one by one until the device refuses one, or does not answer.
use crate::commands::{album_tree, carries, sub, track_tree, Cmd04};
use crate::frame::{
    fits, has_opcode, law_cut_short, law_read_back, read_frame, wire, Frame, Message, OP_NAK,
};
use crate::json::{compact_bytes, Json};
use crate::text::{
    decimal, joined, law_decimal_reads_back, texts, unsigned_number, write_decimal, NumberError,
};
use vstd::prelude::*;

verus! {

/// How many album slots are walked.
pub const SLOTS: u64 = 4;

/// How many tracks of a slot are probed at most.
pub const PROBES: u64 = 32;

/// One album of the walked library.
#[derive(Clone, Debug)]
pub struct AlbumInfo {
    pub slot: String,
    pub tracks: Vec<String>,
}

/// What an album entry says.
#[verifier::ext_equal]
pub struct Listing {
    pub slot: Seq<char>,
    pub tracks: Seq<Seq<char>>,
}

impl View for AlbumInfo {
    type V = Listing;

    open spec fn view(&self) -> Listing {
        Listing { slot: self.slot@, tracks: texts(self.tracks@) }
    }
}

/// What each of some album entries says.
pub open spec fn listings(albums: Seq<AlbumInfo>) -> Seq<Listing> {
    Seq::new(albums.len(), |i: int| albums[i]@)
}

/// The name of the album slot with this number.
pub open spec fn slot_name(n: nat) -> Seq<char> {
    "A"@ + decimal(n)
}

/// The name of the track with this number.
pub open spec fn track_name(n: nat) -> Seq<char> {
    "T"@ + decimal(n)
}

/// The names of the first `n` tracks.
pub open spec fn track_names(n: nat) -> Seq<Seq<char>> {
    Seq::new(n, |i: int| track_name((i + 1) as nat))
}

/// Writes the name of an album slot.
pub fn write_slot(n: u64) -> (res: String)
    ensures
        res@ == slot_name(n as nat),
{
    joined("A", write_decimal(n).as_str())
}

fn write_track(n: u64) -> (res: String)
    ensures
        res@ == track_name(n as nat),
{
    joined("T", write_decimal(n).as_str())
}

/// How far the walk has come.
#[derive(Clone, Copy, Debug, PartialEq, Eq, Structural)]
pub enum Phase {
    /// The session is to be opened.
    Begin,
    /// The listing is to be opened.
    List,
    /// The album of this slot number is to be selected.
    Album(u64),
    /// The track of this number, in the slot of that number, is to be probed.
    Track(u64, u64),
    /// The session is to be closed.
    End,
    /// Everything was walked.
    Done,
    /// A step that the walk cannot do without was not answered.
    Failed,
}

/// How the device took a command.
#[derive(Clone, Copy, Debug, PartialEq, Eq, Structural)]
pub enum Answer {
    /// The command could not be sent, or nothing readable came back.
    Missing,
    /// The device refused: it sent a negative acknowledgement.
    Refused,
    /// The device sent something else.
    Given,
}

impl Answer {
    /// Whether anything readable came back.
    pub open spec fn came(self) -> bool {
        self !is Missing
    }
}

/// How the device took a command to which these bytes came back, if any did.
pub open spec fn answer_in(reply: Option<Seq<u8>>) -> Answer {
    match reply {
        Some(bytes) => match read_frame(bytes) {
            Ok(m) => if m.op == OP_NAK {
                Answer::Refused
            } else {
                Answer::Given
            },
            Err(_) => Answer::Missing,
        },
        None => Answer::Missing,
    }
}

/// The bytes of a slice that may be there.
pub open spec fn optional_bytes(b: Option<&[u8]>) -> Option<Seq<u8>> {
    match b {
        Some(b) => Some(b@),
        None => None,
    }
}

/// How the device took a command to which this frame came back, if one did.
pub fn read_answer(reply: Option<&[u8]>) -> (res: Answer)
    requires
        reply is Some ==> has_opcode(reply->0@),
    ensures
        res == answer_in(optional_bytes(reply)),
{
    match reply {
        Some(buf) => match Frame::decode(buf) {
            Ok(frame) => if frame.op == OP_NAK {
                Answer::Refused
            } else {
                Answer::Given
            },
            Err(_) => Answer::Missing,
        },
        None => Answer::Missing,
    }
}

/// The state of a walk.
pub struct Enumeration {
    phase: Phase,
    albums: Vec<AlbumInfo>,
    tracks: Vec<String>,
}

/// The mathematical state of a walk: its phase, the entries of the albums that
/// are done, and how many tracks of the current one have answered.
#[verifier::ext_equal]
pub struct Walk {
    pub phase: Phase,
    pub albums: Seq<Listing>,
    pub found: nat,
}

impl Walk {
    /// The walk before its first command.
    pub open spec fn start() -> Walk {
        Walk { phase: Phase::Begin, albums: Seq::empty(), found: 0 }
    }

    /// The walk with its current album done.
    pub open spec fn close_album(self, slot: u64) -> Walk {
        Walk {
            phase: if slot < SLOTS {
                Phase::Album((slot + 1) as u64)
            } else {
                Phase::End
            },
            albums: self.albums.push(
                Listing { slot: slot_name(slot as nat), tracks: track_names(self.found) },
            ),
            found: 0,
        }
    }

    /// The walk after a command that the device took this way. A probe counts
    /// only where the device did not refuse it; of the other commands it is
    /// enough that something came back.
    pub open spec fn next(self, answer: Answer) -> Walk {
        match self.phase {
            Phase::Begin => Walk {
                phase: if answer.came() {
                    Phase::List
                } else {
                    Phase::Failed
                },
                ..self
            },
            Phase::List => Walk {
                phase: if answer.came() {
                    Phase::Album(1)
                } else {
                    Phase::Failed
                },
                ..self
            },
            Phase::Album(slot) => Walk {
                phase: if answer.came() {
                    Phase::Track(slot, 1)
                } else {
                    Phase::Failed
                },
                ..self
            },
            Phase::Track(slot, track) => if answer !is Given {
                self.close_album(slot)
            } else if track < PROBES {
                Walk {
                    phase: Phase::Track(slot, (track + 1) as u64),
                    found: self.found + 1,
                    ..self
                }
            } else {
                (Walk { found: self.found + 1, ..self }).close_album(slot)
            },
            Phase::End => Walk {
                phase: if answer.came() {
                    Phase::Done
                } else {
                    Phase::Failed
                },
                ..self
            },
            Phase::Done => self,
            Phase::Failed => self,
        }
    }

    /// Whether the walk is one that can come about.
    pub open spec fn sound(self) -> bool {
        &&& match self.phase {
            Phase::Begin | Phase::List => self.albums.len() == 0 && self.found == 0,
            Phase::Album(slot) => 1 <= slot <= SLOTS && self.albums.len() == slot - 1 && self.found
                == 0,
            Phase::Track(slot, track) => 1 <= slot <= SLOTS && 1 <= track <= PROBES
                && self.albums.len() == slot - 1 && self.found == track - 1,
            Phase::End | Phase::Done => self.albums.len() == SLOTS && self.found == 0,
            Phase::Failed => self.albums.len() <= SLOTS && self.found == 0,
        }
        &&& forall|i: int|
            0 <= i < self.albums.len() ==> is_probed(#[trigger] self.albums[i], (i + 1) as nat)
    }

    /// How many more commands there can be.
    pub open spec fn left(self) -> int {
        match self.phase {
            Phase::Begin => 2 + SLOTS * (PROBES + 1) + 1,
            Phase::List => 1 + SLOTS * (PROBES + 1) + 1,
            Phase::Album(slot) => (SLOTS + 1 - slot) * (PROBES + 1) + 1,
            Phase::Track(slot, track) => (SLOTS - slot) * (PROBES + 1) + (PROBES + 1 - track) + 1,
            Phase::End => 1,
            Phase::Done => 0,
            Phase::Failed => 0,
        }
    }
}

/// Whether an entry is one that probing the slot of this number can give: its
/// tracks are the first few, without a gap.
pub open spec fn is_probed(entry: Listing, slot: nat) -> bool {
    &&& entry.slot == slot_name(slot)
    &&& entry.tracks.len() <= PROBES
    &&& entry.tracks == track_names(entry.tracks.len())
}

/// The walk after a whole series of answers.
pub open spec fn walked(answers: Seq<Answer>) -> Walk
    decreases answers.len(),
{
    if answers.len() == 0 {
        Walk::start()
    } else {
        walked(answers.drop_last()).next(answers.last())
    }
}

/// Whether `c` is what the walk sends in its phase; nothing is sent once it is
/// over.
pub open spec fn is_request(phase: Phase, c: Option<Cmd04>) -> bool {
    match phase {
        Phase::Begin => c is Some && c->0.sub == sub::SESSION_BEGIN && c->0.payload@.len() == 0,
        Phase::List => c is Some && c->0.sub == sub::ENUM_BEGIN && c->0.payload@.len() == 0,
        Phase::Album(slot) => c is Some && c->0.sub == sub::SELECT_ALBUM && carries(
            c->0.payload@,
            album_tree(slot_name(slot as nat)),
        ),
        Phase::Track(slot, track) => c is Some && c->0.sub == sub::SELECT_TRACK && carries(
            c->0.payload@,
            track_tree(slot_name(slot as nat), track_name(track as nat)),
        ),
        Phase::End => c is Some && c->0.sub == sub::SESSION_END && c->0.payload@.len() == 0,
        Phase::Done | Phase::Failed => c is None,
    }
}

impl View for Enumeration {
    type V = Walk;

    closed spec fn view(&self) -> Walk {
        Walk {
            phase: self.phase,
            albums: listings(self.albums@),
            found: self.tracks@.len(),
        }
    }
}

impl Enumeration {
    /// Whether the state is one that can come about.
    pub closed spec fn wf(&self) -> bool {
        &&& self@.sound()
        &&& texts(self.tracks@) == track_names(self.tracks@.len())
    }

    /// A walk before its first command.
    pub fn new() -> (res: Enumeration)
        ensures
            res.wf(),
            res@ == Walk::start(),
    {
        let res = Enumeration {
            phase: Phase::Begin,
            albums: Vec::new(),
            tracks: Vec::new(),
        };
        assert(res@ =~= Walk::start());
        assert(texts(res.tracks@) =~= track_names(0));
        res
    }

    /// The command to send next; none once the walk is over.
    pub fn request(&self) -> (res: Option<Cmd04>)
        requires
            self.wf(),
        ensures
            is_request(self@.phase, res),
    {
        match self.phase {
            Phase::Begin => Some(Cmd04::bare(sub::SESSION_BEGIN)),
            Phase::List => Some(Cmd04::bare(sub::ENUM_BEGIN)),
            Phase::Album(slot) => {
                let slot: String = write_slot(slot);
                Cmd04::select_album(slot.as_str()).ok()
            },
            Phase::Track(slot, track) => {
                let slot: String = write_slot(slot);
                let track: String = write_track(track);
                Cmd04::select_track(slot.as_str(), track.as_str()).ok()
            },
            Phase::End => Some(Cmd04::bare(sub::SESSION_END)),
            Phase::Done => None,
            Phase::Failed => None,
        }
    }

    /// Takes note of the frame that came back, if the command was sent and one
    /// did.
    pub fn advance(&mut self, reply: Option<&[u8]>)
        requires
            old(self).wf(),
            reply is Some ==> has_opcode(reply->0@),
        ensures
            final(self).wf(),
            final(self)@ == old(self)@.next(answer_in(optional_bytes(reply))),
    {
        let answer: Answer = read_answer(reply);
        let came: bool = !matches!(answer, Answer::Missing);
        let given: bool = matches!(answer, Answer::Given);
        let ghost before = self@;
        match self.phase {
            Phase::Begin => {
                self.phase = if came {
                    Phase::List
                } else {
                    Phase::Failed
                };
            },
            Phase::List => {
                self.phase = if came {
                    Phase::Album(1)
                } else {
                    Phase::Failed
                };
            },
            Phase::Album(slot) => {
                self.phase = if came {
                    Phase::Track(slot, 1)
                } else {
                    Phase::Failed
                };
            },
            Phase::Track(slot, track) => {
                if given {
                    let ghost known = self.tracks@;
                    self.tracks.push(write_track(track));
                    assert(texts(self.tracks@) =~= track_names(self.tracks@.len())) by {
                        assert forall|i: int| 0 <= i < self.tracks@.len() implies texts(
                            self.tracks@,
                        )[i] == track_names(self.tracks@.len())[i] by {
                            if i < known.len() {
                                assert(texts(known)[i] == track_names(known.len())[i]);
                            }
                        }
                    }
                }
                if given && track < PROBES {
                    self.phase = Phase::Track(slot, track + 1);
                } else {
                    self.close_album(slot);
                }
            },
            Phase::End => {
                self.phase = if came {
                    Phase::Done
                } else {
                    Phase::Failed
                };
            },
            Phase::Done => {},
            Phase::Failed => {},
        }
        assert(self@ =~= before.next(answer));
    }

    fn close_album(&mut self, slot: u64)
        requires
            1 <= slot <= SLOTS,
            texts(old(self).tracks@) == track_names(old(self).tracks@.len()),
            old(self).tracks@.len() <= PROBES,
            old(self)@.albums.len() == slot - 1,
            forall|i: int|
                0 <= i < old(self)@.albums.len() ==> is_probed(
                    #[trigger] old(self)@.albums[i],
                    (i + 1) as nat,
                ),
        ensures
            final(self).wf(),
            final(self)@ == old(self)@.close_album(slot),
    {
        let ghost before = self@;
        let mut tracks: Vec<String> = Vec::new();
        tracks.append(&mut self.tracks);
        let ghost entry = Listing {
            slot: slot_name(slot as nat),
            tracks: track_names(before.found),
        };
        let album: AlbumInfo = AlbumInfo { slot: write_slot(slot), tracks };
        assert(album@ =~= entry);
        let ghost done = self.albums@;
        self.albums.push(album);
        assert(listings(self.albums@) =~= listings(done).push(entry));
        self.phase = if slot < SLOTS {
            Phase::Album(slot + 1)
        } else {
            Phase::End
        };
        assert(self@ =~= before.close_album(slot));
        assert(texts(self.tracks@) =~= track_names(0));
    }

    /// The albums, if the walk came to its end.
    pub fn finish(self) -> (res: Option<Vec<AlbumInfo>>)
        requires
            self.wf(),
        ensures
            self@.phase is Done <==> res is Some,
            res is Some ==> listings(res->0@) == self@.albums,
    {
        match self.phase {
            Phase::Done => Some(self.albums),
            _ => None,
        }
    }
}

/// However the device answers, the walk stays sound.
pub proof fn law_stays_sound(answers: Seq<Answer>)
    ensures
        walked(answers).sound(),
    decreases answers.len(),
{
    if answers.len() > 0 {
        law_stays_sound(answers.drop_last());
        let before = walked(answers.drop_last());
        let after = before.next(answers.last());
        assert forall|i: int| 0 <= i < after.albums.len() implies is_probed(
            #[trigger] after.albums[i],
            (i + 1) as nat,
        ) by {
            if i < before.albums.len() {
                assert(after.albums[i] == before.albums[i]);
            }
        }
    }
}

/// Every step brings the walk nearer to its end.
pub proof fn law_comes_to_an_end(w: Walk, answer: Answer)
    requires
        w.sound(),
        w.phase !is Done,
        w.phase !is Failed,
    ensures
        0 <= w.next(answer).left() < w.left(),
{
}

/// A walk that came to its end lists the four slots in order, each with its
/// first few tracks and no gap among them.
pub proof fn law_lists_all_slots(answers: Seq<Answer>)
    requires
        walked(answers).phase is Done,
    ensures
        walked(answers).albums.len() == SLOTS,
        forall|i: int|
            0 <= i < SLOTS ==> is_probed(#[trigger] walked(answers).albums[i], (i + 1) as nat),
{
    law_stays_sound(answers);
}

/// The walk after some more answers.
pub open spec fn walked_on(w: Walk, answers: Seq<Answer>) -> Walk
    decreases answers.len(),
{
    if answers.len() == 0 {
        w
    } else {
        walked_on(w, answers.drop_last()).next(answers.last())
    }
}

/// The tracks that an album is listed with are those whose probes the device
/// answered before it refused one, or failed to answer, or the last probe was
/// made: `answers` are how it took the probes.
pub proof fn law_lists_what_was_answered(w: Walk, slot: u64, answers: Seq<Answer>)
    requires
        w.sound(),
        w.phase == Phase::Track(slot, 1),
        1 <= answers.len() <= PROBES,
        forall|i: int| 0 <= i < answers.len() - 1 ==> #[trigger] answers[i] is Given,
        answers.last() !is Given || answers.len() == PROBES,
    ensures
        ({
            let tracks = if answers.last() is Given {
                answers.len()
            } else {
                (answers.len() - 1) as nat
            };
            walked_on(w, answers) == (Walk { found: tracks, ..w }).close_album(slot)
        }),
{
    let before = answers.drop_last();
    lemma_probing(w, slot, before);
    assert(walked_on(w, before).found == before.len());
}

proof fn lemma_probing(w: Walk, slot: u64, answers: Seq<Answer>)
    requires
        w.sound(),
        w.phase == Phase::Track(slot, 1),
        answers.len() < PROBES,
        forall|i: int| 0 <= i < answers.len() ==> #[trigger] answers[i] is Given,
    ensures
        walked_on(w, answers) == (Walk {
            phase: Phase::Track(slot, (answers.len() + 1) as u64),
            found: answers.len(),
            ..w
        }),
    decreases answers.len(),
{
    if answers.len() > 0 {
        let before = answers.drop_last();
        assert forall|i: int| 0 <= i < before.len() implies #[trigger] before[i] is Given by {
            assert(before[i] == answers[i]);
        }
        lemma_probing(w, slot, before);
    }
}

/// How many probes of the slot with this number the device has answered.
pub open spec fn answered_probes(answers: Seq<Answer>, slot: nat) -> nat
    decreases answers.len(),
{
    if answers.len() == 0 {
        0
    } else {
        let before = answers.drop_last();
        let earlier = answered_probes(before, slot);
        match walked(before).phase {
            Phase::Track(probed, _) => if probed == slot && answers.last() is Given {
                earlier + 1
            } else {
                earlier
            },
            _ => earlier,
        }
    }
}

/// At every point of every walk, each listed album has exactly as many tracks
/// as probes of its slot were answered, and of the slots still to come none
/// has been probed.
pub proof fn law_tracks_are_the_answered_probes(answers: Seq<Answer>)
    ensures
        forall|i: int|
            0 <= i < walked(answers).albums.len() ==> (#[trigger] walked(answers).albums[i]).tracks
                == track_names(answered_probes(answers, (i + 1) as nat)),
        walked(answers).phase !is Failed ==> walked(answers).found == answered_probes(
            answers,
            (walked(answers).albums.len() + 1) as nat,
        ),
        forall|slot: nat|
            slot > walked(answers).albums.len() + 1 ==> #[trigger] answered_probes(answers, slot)
                == 0,
    decreases answers.len(),
{
    law_stays_sound(answers);
    if answers.len() > 0 {
        let before = answers.drop_last();
        law_stays_sound(before);
        law_tracks_are_the_answered_probes(before);
        let w = walked(before);
        let after = walked(answers);
        assert forall|i: int| 0 <= i < after.albums.len() implies (
        #[trigger] after.albums[i]).tracks == track_names(
            answered_probes(answers, (i + 1) as nat),
        ) by {
            if i < w.albums.len() {
                assert(after.albums[i] == w.albums[i]);
            }
        }
        assert forall|slot: nat| slot > after.albums.len() + 1 implies #[trigger] answered_probes(
            answers,
            slot,
        ) == 0 by {
            assert(answered_probes(before, slot) == 0);
        }
        if after.phase !is Failed && after.albums.len() > w.albums.len() {
            assert(answered_probes(before, (after.albums.len() + 1) as nat) == 0);
        }
    }
}

/// A walk takes at most 135 commands: two to open it, for each slot one to
/// select it and at most 32 probes, and one to close it.
pub proof fn law_bounded(answers: Seq<Answer>)
    requires
        walked(answers).phase !is Done,
        walked(answers).phase !is Failed,
    ensures
        answers.len() < 135,
{
    lemma_spent(answers);
    law_stays_sound(answers);
}

proof fn lemma_spent(answers: Seq<Answer>)
    requires
        walked(answers).phase !is Done,
        walked(answers).phase !is Failed,
    ensures
        walked(answers).left() + answers.len() <= 135,
    decreases answers.len(),
{
    if answers.len() > 0 {
        let earlier = answers.drop_last();
        law_stays_sound(earlier);
        assert(walked(earlier).phase !is Done && walked(earlier).phase !is Failed);
        lemma_spent(earlier);
        law_comes_to_an_end(walked(earlier), answers.last());
    }
}

/// Every readable frame counts as an answer, whatever its payload and whatever
/// comes behind it, unless its opcode says no, which counts as a refusal.
pub proof fn law_every_frame_answers(m: Message, behind: Seq<u8>)
    requires
        fits(m),
    ensures
        m.op != 0x01 ==> answer_in(Some(wire(m) + behind)) is Given,
        m.op == 0x01 ==> answer_in(Some(wire(m) + behind)) is Refused,
{
    law_read_back(m, behind);
}

/// Where nothing comes back, or only the beginning of a frame, there is no
/// answer.
pub proof fn law_silence_is_no_answer(m: Message, kept: int)
    requires
        fits(m),
        0 <= kept < wire(m).len(),
    ensures
        answer_in(None) is Missing,
        answer_in(Some(wire(m).take(kept))) is Missing,
{
    law_cut_short(m, kept);
}

/// The name of a slot is an `A`, that of a track a `T`, and what follows reads
/// as its number.
pub proof fn law_names_tell_the_number(n: nat)
    requires
        n <= u32::MAX,
    ensures
        slot_name(n).len() > 1 && slot_name(n)[0] == 'A',
        unsigned_number(slot_name(n).drop_first(), 10) == Ok::<int, NumberError>(n as int),
        track_name(n).len() > 1 && track_name(n)[0] == 'T',
        unsigned_number(track_name(n).drop_first(), 10) == Ok::<int, NumberError>(n as int),
{
    reveal_strlit("A");
    reveal_strlit("T");
    law_decimal_reads_back(n);
    assert(decimal(n).len() > 0);
    assert(slot_name(n).drop_first() =~= decimal(n));
    assert(track_name(n).drop_first() =~= decimal(n));
}

/// How a device that holds so many tracks takes the selection of a slot and the
/// probes of its tracks: it gives those that it has, and refuses the next one.
pub open spec fn answers_for(held: nat) -> Seq<Answer> {
    Seq::new(
        if held < 32 {
            held + 2
        } else {
            33
        },
        |i: int|
            if i <= held {
                Answer::Given
            } else {
                Answer::Refused
            },
    )
}

proof fn lemma_walked_on(w: Walk, a: Seq<Answer>, b: Seq<Answer>)
    ensures
        walked_on(w, a + b) == walked_on(walked_on(w, a), b),
    decreases b.len(),
{
    if b.len() == 0 {
        assert(a + b =~= a);
    } else {
        lemma_walked_on(w, a, b.drop_last());
        assert((a + b).drop_last() =~= a + b.drop_last());
    }
}

proof fn lemma_walked_from_start(answers: Seq<Answer>)
    ensures
        walked(answers) == walked_on(Walk::start(), answers),
    decreases answers.len(),
{
    if answers.len() > 0 {
        lemma_walked_from_start(answers.drop_last());
    }
}

proof fn lemma_slot_walked(w: Walk, slot: u64, held: nat)
    requires
        w.sound(),
        w.phase == Phase::Album(slot),
    ensures
        ({
            let listed = if held < 32 {
                held
            } else {
                32
            };
            &&& walked_on(w, answers_for(held)).albums == w.albums.push(
                Listing { slot: slot_name(slot as nat), tracks: track_names(listed) },
            )
            &&& walked_on(w, answers_for(held)).phase == (if slot < 4 {
                Phase::Album((slot + 1) as u64)
            } else {
                Phase::End
            })
            &&& walked_on(w, answers_for(held)).sound()
        }),
{
    let all = answers_for(held);
    let select = seq![Answer::Given];
    let probes = all.skip(1);
    assert(all =~= select + probes);
    lemma_walked_on(w, select, probes);
    reveal_with_fuel(walked_on, 2);
    assert(select.drop_last() =~= Seq::empty());
    let at_first = walked_on(w, select);
    assert(at_first == w.next(Answer::Given));
    assert forall|i: int| 0 <= i < probes.len() - 1 implies #[trigger] probes[i] is Given by {}
    law_lists_what_was_answered(at_first, slot, probes);
    let after = walked_on(w, all);
    assert forall|i: int| 0 <= i < after.albums.len() implies is_probed(
        #[trigger] after.albums[i],
        (i + 1) as nat,
    ) by {
        if i < w.albums.len() {
            assert(after.albums[i] == w.albums[i]);
        }
    }
}

/// A device that answers everything but the tracks that it does not have is
/// listed as it is: the slots A1 to A4 in order, each with the tracks T1, T2 and
/// so on up to the number that it holds, or up to 32 where it holds more.
pub proof fn law_device_is_listed_as_it_is(a: nat, b: nat, c: nat, d: nat)
    ensures
        ({
            let given = seq![Answer::Given];
            let answers = given + given + answers_for(a) + answers_for(b) + answers_for(c)
                + answers_for(d) + given;
            let w = walked(answers);
            &&& w.phase is Done
            &&& w.albums.len() == 4
            &&& forall|i: int|
                0 <= i < 4 ==> {
                    let held = seq![a, b, c, d][i];
                    &&& (#[trigger] w.albums[i]).slot == "A"@ + decimal((i + 1) as nat)
                    &&& w.albums[i].tracks.len() == (if held < 32 {
                        held
                    } else {
                        32
                    })
                    &&& forall|k: int|
                        0 <= k < w.albums[i].tracks.len() ==> #[trigger] w.albums[i].tracks[k]
                            == "T"@ + decimal((k + 1) as nat)
                }
        }),
{
    let given = seq![Answer::Given];
    let s0 = Walk::start();
    let o1 = given;
    let o2 = o1 + given;
    let o3 = o2 + answers_for(a);
    let o4 = o3 + answers_for(b);
    let o5 = o4 + answers_for(c);
    let o6 = o5 + answers_for(d);
    let o7 = o6 + given;
    lemma_walked_from_start(o7);
    lemma_given_step(s0);
    lemma_walked_on(s0, o1, given);
    lemma_given_step(walked_on(s0, o1));
    let w2 = walked_on(s0, o2);
    assert(w2.phase == Phase::Album(1));
    lemma_walked_on(s0, o2, answers_for(a));
    lemma_slot_walked(w2, 1, a);
    let w3 = walked_on(s0, o3);
    lemma_walked_on(s0, o3, answers_for(b));
    lemma_slot_walked(w3, 2, b);
    let w4 = walked_on(s0, o4);
    lemma_walked_on(s0, o4, answers_for(c));
    lemma_slot_walked(w4, 3, c);
    let w5 = walked_on(s0, o5);
    lemma_walked_on(s0, o5, answers_for(d));
    lemma_slot_walked(w5, 4, d);
    let w6 = walked_on(s0, o6);
    lemma_walked_on(s0, o6, given);
    lemma_given_step(w6);
    let w = walked_on(s0, o7);
    assert(w.albums.len() == 4);
    assert(w.albums[0] == w3.albums[0]);
    assert(w.albums[1] == w4.albums[1]);
    assert(w.albums[2] == w5.albums[2]);
}

proof fn lemma_given_step(w: Walk)
    ensures
        walked_on(w, seq![Answer::Given]) == w.next(Answer::Given),
{
    reveal_with_fuel(walked_on, 2);
    assert(seq![Answer::Given].drop_last() =~= Seq::empty());
}

/// Of the commands that are no probes, any frame that comes back is enough, and
/// silence ends the walk.
pub proof fn law_only_silence_ends_the_walk(w: Walk)
    requires
        w.phase is Begin || w.phase is List || w.phase is Album || w.phase is End,
    ensures
        w.next(Answer::Missing).phase is Failed,
        w.next(Answer::Refused) == w.next(Answer::Given),
        w.next(Answer::Given).phase !is Failed,
        w.next(Answer::Given).albums == w.albums,
{
}

/// What the walk sends for a slot and for a track names them, and nothing is
/// sent once the walk is over.
pub proof fn law_requests_name_the_slot(slot: u64, track: u64, c: Option<Cmd04>)
    ensures
        is_request(Phase::Album(slot), c) ==> c is Some && c->0.sub == 0x05 && c->0.payload@
            == compact_bytes(
            Json::Object(seq![("album"@, Json::Text("A"@ + decimal(slot as nat)))]),
        ).push(0),
        is_request(Phase::Track(slot, track), c) ==> c is Some && c->0.sub == 0x06
            && c->0.payload@ == compact_bytes(
            Json::Object(
                seq![
                    ("album"@, Json::Text("A"@ + decimal(slot as nat))),
                    ("track"@, Json::Text("T"@ + decimal(track as nat))),
                ],
            ),
        ).push(0),
        is_request(Phase::Begin, c) ==> c is Some && c->0.sub == 0x00 && c->0.payload@.len() == 0,
        is_request(Phase::List, c) ==> c is Some && c->0.sub == 0x03 && c->0.payload@.len() == 0,
        is_request(Phase::End, c) ==> c is Some && c->0.sub == 0x02 && c->0.payload@.len() == 0,
        is_request(Phase::Done, c) || is_request(Phase::Failed, c) ==> c is None,
{
}

/// An album entry says what it holds.
pub proof fn law_entry_says_what_it_holds(album: AlbumInfo)
    ensures
        album@.slot == album.slot@,
        album@.tracks.len() == album.tracks@.len(),
        forall|i: int|
            0 <= i < album.tracks@.len() ==> #[trigger] album@.tracks[i] == album.tracks@[i]@,
{
}

} // verus!

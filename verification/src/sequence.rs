//! The whole of an upload: the device is let go while the song is split, then
//! opened again, the session taken, the device unlocked, a slot chosen and
//! created, and the track sent.
use crate::auth::{is_auth_action, same_bits, AuthAction, Handshake, Shake};
use crate::bundle::{headers_in, law_order_of_files, stages_in, PushStep, Stage, Step, Upload};
use crate::commands::{
    album_tree, carries, challenge_tree, law_text_for_an_album, sub, Cmd04,
};
use crate::device::{connect_frame, AsFrame};
use crate::error::Error;
use crate::frame::{wire, Frame, Message, OP_CMD, OP_CONNECT, OP_FILE_HEADER};
use crate::json::{compact_bytes, quoted, Json};
use crate::library::is_user_id;
use crate::text::unsigned_number;
use crate::upload::{
    is_upload_slot, law_upload_takes_a_new_slot, new_album, notices, NewAlbum, Notice,
};
use vstd::prelude::*;
use vstd::utf8::encode_utf8;

verus! {

/// How far an upload has come.
#[derive(Debug)]
pub enum FreshUpload {
    /// The device is to be let go, so that it may sleep.
    Release,
    /// The song is to be split.
    Split,
    /// The device is to be opened again.
    Reopen,
    /// The stems are to be loaded.
    Load,
    /// The session is to be taken.
    Connect,
    /// The device is to be unlocked.
    Unlock(Handshake),
    /// The device's listing is to be asked for.
    List,
    /// This slot is to be created.
    Create(String),
    /// The track is to be sent into this slot.
    Push(String),
    /// Everything was sent.
    Done,
}

/// How far an upload has come, in texts and numbers.
pub ghost enum Place {
    Release,
    Split,
    Reopen,
    Load,
    Connect,
    Unlock(Shake),
    List,
    Create(Seq<char>),
    Push(Seq<char>),
    Done,
}

impl View for FreshUpload {
    type V = Place;

    open spec fn view(&self) -> Place {
        match self {
            FreshUpload::Release => Place::Release,
            FreshUpload::Split => Place::Split,
            FreshUpload::Reopen => Place::Reopen,
            FreshUpload::Load => Place::Load,
            FreshUpload::Connect => Place::Connect,
            FreshUpload::Unlock(shake) => Place::Unlock(shake@),
            FreshUpload::List => Place::List,
            FreshUpload::Create(slot) => Place::Create(slot@),
            FreshUpload::Push(slot) => Place::Push(slot@),
            FreshUpload::Done => Place::Done,
        }
    }
}

/// What an upload asks for next.
pub enum Action {
    /// Let the device go.
    Release,
    /// Split the song.
    Split,
    /// Open the device again.
    Reopen,
    /// Load the stems.
    Load,
    /// Send the frame; whatever comes back is dropped.
    Connect(Frame),
    /// Go on with the handshake.
    Unlock(AuthAction),
    /// Send the command and read the payload of the reply.
    Ask(Cmd04),
    /// Send the command; whatever comes back is dropped.
    Create(Cmd04),
    /// Send the track into this slot.
    Push(String),
    /// Nothing more.
    Finish,
}

/// What became of an action.
pub enum Outcome {
    /// It was done.
    Done,
    /// It was done and brought this text.
    Text(String),
    /// It was done and brought this payload.
    Payload(Vec<u8>),
    /// It failed.
    Failed(Error),
}

/// What became of an action, in texts and bytes.
pub ghost enum Event {
    Done,
    Text(Seq<char>),
    Payload(Seq<u8>),
    Failed(Error),
}

impl View for Outcome {
    type V = Event;

    open spec fn view(&self) -> Event {
        match self {
            Outcome::Done => Event::Done,
            Outcome::Text(t) => Event::Text(t@),
            Outcome::Payload(bytes) => Event::Payload(bytes@),
            Outcome::Failed(e) => Event::Failed(*e),
        }
    }
}

/// Whether the action is the one that the upload asks for next.
pub open spec fn is_action(p: Place, a: Action) -> bool {
    match p {
        Place::Release => a is Release,
        Place::Split => a is Split,
        Place::Reopen => a is Reopen,
        Place::Load => a is Load,
        Place::Connect => a is Connect && a->Connect_0@ == connect_message(),
        Place::Unlock(shake) => a is Unlock && is_auth_action(shake, a->Unlock_0),
        Place::List => a is Ask && a->Ask_0.sub == sub::GET_TRACKS_INFO && a->Ask_0.payload@.len()
            == 0,
        Place::Create(slot) => a is Create && a->Create_0.sub == sub::ADD_ALBUM && carries(
            a->Create_0.payload@,
            album_tree(slot),
        ),
        Place::Push(slot) => a is Push && a->Push_0@ == slot,
        Place::Done => a is Finish,
    }
}

/// The listing that an outcome brought, if it brought one.
pub open spec fn listing_in(e: Event) -> Option<Seq<u8>> {
    match e {
        Event::Payload(bytes) => Some(bytes),
        _ => None,
    }
}

/// Whether the upload goes on there after this outcome. A device that cannot be
/// unlocked is still tried: it says by itself what it does not take.
pub open spec fn follows(before: Place, e: Event, after: Place) -> bool {
    !is_fatal(before, e) && match before {
        Place::Release => after == Place::Split,
        Place::Split => after == Place::Reopen,
        Place::Reopen => after == Place::Load,
        Place::Load => after == Place::Connect,
        Place::Connect => after == Place::Unlock(Shake::Serial),
        Place::Unlock(shake) => match e {
            Event::Text(t) => match shake.after(t) {
                Some(next) => after == (if next is Done {
                    Place::List
                } else {
                    Place::Unlock(next)
                }),
                None => after == Place::List,
            },
            _ => after == Place::List,
        },
        Place::List => after is Create && is_upload_slot(listing_in(e), after->Create_0),
        Place::Create(slot) => after == Place::Push(slot),
        Place::Push(_) => after == Place::Done,
        Place::Done => after == Place::Done,
    }
}

/// Whether an outcome ends the upload there. Only the session, the handshake and
/// the listing can be done without.
pub open spec fn is_fatal(p: Place, e: Event) -> bool {
    e is Failed && match p {
        Place::Connect | Place::Unlock(_) | Place::List | Place::Done => false,
        _ => true,
    }
}

/// What the user is told there, before anything is done.
pub open spec fn told_at(p: Place) -> Seq<Notice> {
    match p {
        Place::Release => seq![Notice::Preparing],
        Place::Split => seq![Notice::Splitting],
        Place::Reopen => seq![Notice::StemsReady, Notice::Reopening],
        Place::Create(_) => seq![Notice::CreatingSlot],
        Place::Done => seq![Notice::Done],
        _ => Seq::empty(),
    }
}

/// What the user is told with a step of the track's upload.
pub open spec fn told_with(step: Step) -> Option<Notice> {
    match step {
        Step::Stage(stage) => Some(Notice::Pushing(stage)),
        _ => None,
    }
}

/// What the user is told with a step of the track's upload.
pub fn step_notice(step: &PushStep) -> (res: Option<Notice>)
    ensures
        res == told_with(step@),
{
    match step {
        PushStep::Stage(stage) => Some(Notice::Pushing(*stage)),
        _ => None,
    }
}

impl FreshUpload {
    /// An upload before its first action.
    pub fn new() -> (res: FreshUpload)
        ensures
            res@ == Place::Release,
    {
        FreshUpload::Release
    }

    /// What the user is to be told before the next action.
    pub fn notices(&self) -> (res: Vec<Notice>)
        ensures
            res@ == told_at(self@),
    {
        let mut out: Vec<Notice> = Vec::new();
        match self {
            FreshUpload::Release => {
                out.push(Notice::Preparing);
            },
            FreshUpload::Split => {
                out.push(Notice::Splitting);
            },
            FreshUpload::Reopen => {
                out.push(Notice::StemsReady);
                out.push(Notice::Reopening);
            },
            FreshUpload::Create(_) => {
                out.push(Notice::CreatingSlot);
            },
            FreshUpload::Done => {
                out.push(Notice::Done);
            },
            _ => {},
        }
        assert(out@ =~= told_at(self@));
        out
    }

    /// What is to be done next.
    pub fn action(&self) -> (res: Result<Action, Error>)
        ensures
            res is Ok,
            is_action(self@, res->Ok_0),
    {
        match self {
            FreshUpload::Release => Ok(Action::Release),
            FreshUpload::Split => Ok(Action::Split),
            FreshUpload::Reopen => Ok(Action::Reopen),
            FreshUpload::Load => Ok(Action::Load),
            FreshUpload::Connect => Ok(Action::Connect(connect_frame())),
            FreshUpload::Unlock(shake) => {
                let a: AuthAction = shake.action()?;
                Ok(Action::Unlock(a))
            },
            FreshUpload::List => Ok(Action::Ask(Cmd04::bare(sub::GET_TRACKS_INFO))),
            FreshUpload::Create(slot) => {
                let cmd: Cmd04 = Cmd04::add_album(slot.as_str())?;
                Ok(Action::Create(cmd))
            },
            FreshUpload::Push(slot) => Ok(Action::Push(slot.as_str().to_owned())),
            FreshUpload::Done => Ok(Action::Finish),
        }
    }

    /// The upload after this outcome of its action.
    pub fn next(self, outcome: Outcome) -> (res: Result<FreshUpload, Error>)
        ensures
            match res {
                Ok(after) => follows(self@, outcome@, after@),
                Err(e) => is_fatal(self@, outcome@) && outcome@ == Event::Failed(e),
            },
    {
        match self {
            FreshUpload::Release => match outcome {
                Outcome::Failed(e) => Err(e),
                _ => Ok(FreshUpload::Split),
            },
            FreshUpload::Split => match outcome {
                Outcome::Failed(e) => Err(e),
                _ => Ok(FreshUpload::Reopen),
            },
            FreshUpload::Reopen => match outcome {
                Outcome::Failed(e) => Err(e),
                _ => Ok(FreshUpload::Load),
            },
            FreshUpload::Load => match outcome {
                Outcome::Failed(e) => Err(e),
                _ => Ok(FreshUpload::Connect),
            },
            FreshUpload::Connect => Ok(FreshUpload::Unlock(Handshake::new())),
            FreshUpload::Unlock(shake) => match outcome {
                Outcome::Text(t) => match shake.next(Ok(t)) {
                    Ok(Handshake::Done) => Ok(FreshUpload::List),
                    Ok(next) => Ok(FreshUpload::Unlock(next)),
                    Err(_) => Ok(FreshUpload::List),
                },
                _ => Ok(FreshUpload::List),
            },
            FreshUpload::List => {
                let made: NewAlbum = match &outcome {
                    Outcome::Payload(bytes) => new_album(Some(bytes.as_slice()))?,
                    _ => new_album(None)?,
                };
                Ok(FreshUpload::Create(made.slot))
            },
            FreshUpload::Create(slot) => match outcome {
                Outcome::Failed(e) => Err(e),
                _ => Ok(FreshUpload::Push(slot)),
            },
            FreshUpload::Push(_) => match outcome {
                Outcome::Failed(e) => Err(e),
                _ => Ok(FreshUpload::Done),
            },
            FreshUpload::Done => Ok(FreshUpload::Done),
        }
    }
}

/// The frame that takes the session.
pub open spec fn connect_message() -> Message {
    Message { op: OP_CONNECT, payload: Seq::empty() }
}

/// The frame of a command without JSON.
pub open spec fn bare_message(sub: u8) -> Message {
    Message { op: OP_CMD, payload: seq![sub] }
}

/// The frame of a command with JSON.
pub open spec fn json_message(sub: u8, j: Json) -> Message {
    Message { op: OP_CMD, payload: seq![sub] + compact_bytes(j).push(0) }
}

/// The frames among some steps, in order.
pub open spec fn frames_in(list: Seq<Step>) -> Seq<Message>
    decreases list.len(),
{
    if list.len() == 0 {
        Seq::empty()
    } else {
        match list.last() {
            Step::Send(m) => frames_in(list.drop_last()).push(m),
            _ => frames_in(list.drop_last()),
        }
    }
}

/// The frames that the host sends there. `upload` is what is uploaded into each
/// slot.
pub open spec fn sent_at(p: Place, upload: spec_fn(Seq<char>) -> Upload) -> Seq<Message> {
    match p {
        Place::Release | Place::Split | Place::Reopen | Place::Load => Seq::empty(),
        Place::Connect => seq![connect_message()],
        Place::Unlock(Shake::Serial) => seq![bare_message(sub::VERSION)],
        Place::Unlock(Shake::Answer(_, n)) => seq![
            json_message(sub::CHALLENGE, challenge_tree(n)),
        ],
        Place::Unlock(_) => Seq::empty(),
        Place::List => seq![bare_message(sub::GET_TRACKS_INFO)],
        Place::Create(slot) => seq![json_message(sub::ADD_ALBUM, album_tree(slot))],
        Place::Push(slot) => frames_in(upload(slot).steps()),
        Place::Done => Seq::empty(),
    }
}

/// The frame of the command in an action, where it holds one.
pub open spec fn frames_of(a: Action) -> Seq<Message> {
    match a {
        Action::Release | Action::Split | Action::Reopen | Action::Load => Seq::empty(),
        Action::Connect(frame) => seq![frame@],
        Action::Unlock(AuthAction::Exchange(cmd, _)) => seq![cmd.message()],
        Action::Unlock(_) => Seq::empty(),
        Action::Ask(cmd) => seq![cmd.message()],
        Action::Create(cmd) => seq![cmd.message()],
        Action::Push(_) => Seq::empty(),
        Action::Finish => Seq::empty(),
    }
}

/// What an action asks to be sent is what the upload sends there; the track is
/// sent by the steps of its upload.
pub proof fn law_actions_send_the_frames(
    p: Place,
    a: Action,
    upload: spec_fn(Seq<char>) -> Upload,
)
    requires
        is_action(p, a),
        p !is Push,
    ensures
        frames_of(a) == sent_at(p, upload),
{
    match a {
        Action::Unlock(AuthAction::Exchange(cmd, _)) => {
            if p == Place::Unlock(Shake::Serial) {
                assert(cmd.message().payload =~= seq![sub::VERSION]);
            }
        },
        Action::Ask(cmd) => {
            assert(cmd.message().payload =~= seq![sub::GET_TRACKS_INFO]);
        },
        _ => {},
    }
}

/// Whether an upload went through these places, with these outcomes.
pub open spec fn is_run(places: Seq<Place>, events: Seq<Event>) -> bool {
    &&& places.len() == events.len() + 1
    &&& places[0] == Place::Release
    &&& forall|i: int|
        0 <= i < events.len() ==> follows(
            #[trigger] places[i],
            #[trigger] events[i],
            places[i + 1],
        )
}

/// The frames that the host sends at some places, in order.
pub open spec fn sent_in(
    places: Seq<Place>,
    upload: spec_fn(Seq<char>) -> Upload,
) -> Seq<Message>
    decreases places.len(),
{
    if places.len() == 0 {
        Seq::empty()
    } else {
        sent_in(places.drop_last(), upload) + sent_at(places.last(), upload)
    }
}

/// In every upload that comes to its end, whatever the device and the service
/// say: the device is let go, the song split, the device opened again and the
/// stems loaded; then the session is taken, and the device unlocked as far as
/// that goes; then comes the listing, then the creation of a slot that is the
/// user's, and only then the track, into that slot.
pub proof fn law_order_of_upload(places: Seq<Place>, events: Seq<Event>) -> (slot: Seq<char>)
    requires
        is_run(places, events),
        places.len() >= 2,
        places.last() is Done,
        places[places.len() - 2] !is Done,
    ensures
        places.len() >= 10,
        places[0] == Place::Release,
        places[1] == Place::Split,
        places[2] == Place::Reopen,
        places[3] == Place::Load,
        places[4] == Place::Connect,
        places[5] == Place::Unlock(Shake::Serial),
        forall|i: int| 5 <= i < places.len() - 4 ==> #[trigger] places[i] is Unlock,
        places[places.len() - 4] is List,
        places[places.len() - 3] == Place::Create(slot),
        places[places.len() - 2] == Place::Push(slot),
        is_upload_slot(listing_in(events[places.len() - 4]), slot),
        is_user_id(slot),
{
    let n = places.len();
    lemma_begins(places, events);
    let slot = places[n - 2]->Push_0;
    assert(follows(places[n - 2], events[n - 2], places[n - 1]));
    assert(follows(places[n - 3], events[n - 3], places[n - 2]));
    assert(follows(places[n - 4], events[n - 4], places[n - 3]));
    assert(follows(places[n - 5], events[n - 5], places[n - 4]));
    law_upload_takes_a_new_slot(listing_in(events[n - 4]), slot);
    assert(n - 5 >= 5);
    assert forall|i: int| 5 <= i < n - 4 implies #[trigger] places[i] is Unlock by {
        lemma_unlocking(places, events, n - 5, i);
    }
    slot
}

proof fn lemma_begins(places: Seq<Place>, events: Seq<Event>)
    requires
        is_run(places, events),
    ensures
        places.len() > 1 ==> places[1] == Place::Split,
        places.len() > 2 ==> places[2] == Place::Reopen,
        places.len() > 3 ==> places[3] == Place::Load,
        places.len() > 4 ==> places[4] == Place::Connect,
        places.len() > 5 ==> places[5] == Place::Unlock(Shake::Serial),
{
    if places.len() > 1 {
        assert(follows(places[0], events[0], places[1]));
    }
    if places.len() > 2 {
        assert(follows(places[1], events[1], places[2]));
    }
    if places.len() > 3 {
        assert(follows(places[2], events[2], places[3]));
    }
    if places.len() > 4 {
        assert(follows(places[3], events[3], places[4]));
    }
    if places.len() > 5 {
        assert(follows(places[4], events[4], places[5]));
    }
}

proof fn lemma_unlocking(places: Seq<Place>, events: Seq<Event>, last: int, at: int)
    requires
        is_run(places, events),
        5 <= at <= last < places.len() - 1,
        places[last] is Unlock,
    ensures
        places[at] is Unlock,
    decreases last - at,
{
    if at < last {
        assert(follows(places[last - 1], events[last - 1], places[last]));
        lemma_not_connecting(places, events, last - 1);
        lemma_unlocking(places, events, last - 1, at);
    }
}

/// The session is taken once, at its place in the beginning.
proof fn lemma_not_connecting(places: Seq<Place>, events: Seq<Event>, at: int)
    requires
        is_run(places, events),
        5 <= at < places.len(),
    ensures
        places[at] is Unlock || places[at] is List || places[at] is Create || places[at] is Push
            || places[at] is Done,
    decreases at,
{
    assert(follows(places[at - 1], events[at - 1], places[at]));
    if at == 5 {
        lemma_begins(places, events);
    } else {
        lemma_not_connecting(places, events, at - 1);
    }
}

/// An upload whose handshake succeeds sends these frames and no others, in this
/// order: the one that takes the session, the question for the serial number,
/// the challenge, the question for the listing, the creation of a slot, and the
/// frames of the track's upload into that slot.
pub proof fn law_frames_of_an_upload(
    places: Seq<Place>,
    events: Seq<Event>,
    upload: spec_fn(Seq<char>) -> Upload,
    serial: Seq<char>,
    hex: Seq<char>,
    answer: Seq<char>,
    login: Seq<char>,
) -> (slot: Seq<char>)
    requires
        is_run(places, events),
        events.len() == 12,
        events[5] == Event::Text(serial),
        events[6] == Event::Text(hex),
        unsigned_number(hex, 16) is Ok,
        events[7] == Event::Text(answer),
        events[8] == Event::Text(login),
    ensures
        is_user_id(slot),
        is_upload_slot(listing_in(events[9]), slot),
        places.last() is Done,
        sent_in(places, upload) == seq![
            connect_message(),
            bare_message(sub::VERSION),
            json_message(
                sub::CHALLENGE,
                challenge_tree(same_bits(unsigned_number(hex, 16)->Ok_0)),
            ),
            bare_message(sub::GET_TRACKS_INFO),
            json_message(sub::ADD_ALBUM, album_tree(slot)),
        ] + frames_in(upload(slot).steps()),
{
    let n = same_bits(unsigned_number(hex, 16)->Ok_0);
    lemma_begins(places, events);
    assert(follows(places[5], events[5], places[6]));
    assert(follows(places[6], events[6], places[7]));
    assert(follows(places[7], events[7], places[8]));
    assert(follows(places[8], events[8], places[9]));
    assert(follows(places[9], events[9], places[10]));
    let slot = places[10]->Create_0;
    assert(follows(places[10], events[10], places[11]));
    assert(follows(places[11], events[11], places[12]));
    law_upload_takes_a_new_slot(listing_in(events[9]), slot);
    let head = seq![
        connect_message(),
        bare_message(sub::VERSION),
        json_message(sub::CHALLENGE, challenge_tree(n)),
        bare_message(sub::GET_TRACKS_INFO),
        json_message(sub::ADD_ALBUM, album_tree(slot)),
    ];
    assert(sent_in(places.take(4), upload) =~= Seq::empty()) by {
        lemma_sent_step(places, upload, 0);
        lemma_sent_step(places, upload, 1);
        lemma_sent_step(places, upload, 2);
        lemma_sent_step(places, upload, 3);
    }
    lemma_sent_step(places, upload, 4);
    lemma_sent_step(places, upload, 5);
    lemma_sent_step(places, upload, 6);
    lemma_sent_step(places, upload, 7);
    lemma_sent_step(places, upload, 8);
    lemma_sent_step(places, upload, 9);
    lemma_sent_step(places, upload, 10);
    assert(sent_in(places.take(11), upload) =~= head);
    lemma_sent_step(places, upload, 11);
    lemma_sent_step(places, upload, 12);
    assert(places.take(13) =~= places);
    assert(sent_in(places, upload) =~= head + frames_in(upload(slot).steps()));
    slot
}

/// What the user is told at some places, in order, with what comes with the
/// steps of the track's upload.
pub open spec fn told_in(
    places: Seq<Place>,
    upload: spec_fn(Seq<char>) -> Upload,
) -> Seq<Notice>
    decreases places.len(),
{
    if places.len() == 0 {
        Seq::empty()
    } else {
        told_in(places.drop_last(), upload) + told_at(places.last()) + (match places.last() {
            Place::Push(slot) => told_with_all(upload(slot).steps()),
            _ => Seq::empty(),
        })
    }
}

/// What the user is told with some steps, in order.
pub open spec fn told_with_all(steps: Seq<Step>) -> Seq<Notice>
    decreases steps.len(),
{
    if steps.len() == 0 {
        Seq::empty()
    } else {
        match told_with(steps.last()) {
            Some(notice) => told_with_all(steps.drop_last()).push(notice),
            None => told_with_all(steps.drop_last()),
        }
    }
}

proof fn lemma_told_with_stages(steps: Seq<Step>)
    ensures
        told_with_all(steps) == stages_in(steps).map_values(
            |stage: Stage| Notice::Pushing(stage),
        ),
    decreases steps.len(),
{
    reveal(stages_in);
    let pushing = |stage: Stage| Notice::Pushing(stage);
    if steps.len() > 0 {
        lemma_told_with_stages(steps.drop_last());
    }
    assert(told_with_all(steps) =~= stages_in(steps).map_values(pushing));
}

proof fn lemma_told_step(places: Seq<Place>, upload: spec_fn(Seq<char>) -> Upload, i: int)
    requires
        0 <= i < places.len(),
    ensures
        told_in(places.take(i + 1), upload) == told_in(places.take(i), upload) + told_at(places[i])
            + (match places[i] {
            Place::Push(slot) => told_with_all(upload(slot).steps()),
            _ => Seq::empty(),
        }),
        i == 0 ==> told_in(places.take(0), upload) == Seq::<Notice>::empty(),
{
    assert(places.take(i + 1).drop_last() =~= places.take(i));
}

proof fn lemma_silent(places: Seq<Place>, upload: spec_fn(Seq<char>) -> Upload, from: int, to: int)
    requires
        0 <= from <= to <= places.len(),
        forall|i: int|
            from <= i < to ==> told_at(#[trigger] places[i]).len() == 0 && places[i] !is Push,
    ensures
        told_in(places.take(to), upload) == told_in(places.take(from), upload),
    decreases to - from,
{
    if from < to {
        lemma_silent(places, upload, from, to - 1);
        lemma_told_step(places, upload, to - 1);
        assert(told_at(places[to - 1]).len() == 0);
        assert(told_in(places.take(to), upload) =~= told_in(places.take(to - 1), upload));
    }
}

/// Whatever happens in an upload that comes to its end, the user is told the
/// same, in the same order.
pub proof fn law_user_is_told(
    places: Seq<Place>,
    events: Seq<Event>,
    upload: spec_fn(Seq<char>) -> Upload,
) -> (slot: Seq<char>)
    requires
        is_run(places, events),
        places.len() >= 2,
        places.last() is Done,
        places[places.len() - 2] !is Done,
    ensures
        places[places.len() - 2] == Place::Push(slot),
        told_in(places, upload) == notices(upload(slot)),
{
    let n = places.len();
    let slot = law_order_of_upload(places, events);
    lemma_told_step(places, upload, 0);
    lemma_told_step(places, upload, 1);
    lemma_told_step(places, upload, 2);
    assert(told_in(places.take(3), upload) =~= seq![
        Notice::Preparing,
        Notice::Splitting,
        Notice::StemsReady,
        Notice::Reopening,
    ]);
    lemma_silent(places, upload, 3, n - 3);
    lemma_told_step(places, upload, n - 3);
    lemma_told_step(places, upload, n - 2);
    lemma_told_step(places, upload, n - 1);
    lemma_told_with_stages(upload(slot).steps());
    assert(places.take(n as int) =~= places);
    assert(told_in(places, upload) =~= notices(upload(slot)));
    slot
}

proof fn lemma_sent_step(places: Seq<Place>, upload: spec_fn(Seq<char>) -> Upload, i: int)
    requires
        0 <= i < places.len(),
    ensures
        sent_in(places.take(i + 1), upload) == sent_in(places.take(i), upload) + sent_at(
            places[i],
            upload,
        ),
        i == 0 ==> sent_in(places.take(0), upload) == Seq::<Message>::empty(),
{
    assert(places.take(i + 1).drop_last() =~= places.take(i));
}

/// The file headers among the frames of some steps are the headers of those
/// steps, in the same order.
pub proof fn law_frames_hold_the_headers(list: Seq<Step>)
    ensures
        frames_in(list).filter(|m: Message| m.op == OP_FILE_HEADER) == headers_in(list),
    decreases list.len(),
{
    reveal(headers_in);
    reveal(Seq::filter);
    if list.len() > 0 {
        law_frames_hold_the_headers(list.drop_last());
        let before = frames_in(list.drop_last());
        if let Step::Send(m) = list.last() {
            assert(before.push(m).drop_last() =~= before);
        }
    }
}

/// Only the session, the handshake and the listing may fail: any other failure
/// ends the upload, and nothing but a failure does.
pub proof fn law_which_failures_end_it(p: Place, e: Event)
    ensures
        e !is Failed ==> !is_fatal(p, e),
        e is Failed ==> (is_fatal(p, e) <==> p is Release || p is Split || p is Reopen || p is Load
            || p is Create || p is Push),
{
}

/// Whatever stops the handshake, the upload goes on with the listing; and a
/// challenge that can be read never does.
pub proof fn law_upload_goes_on_without_unlocking(
    shake: Shake,
    e: Event,
    t: Seq<char>,
    after: Place,
)
    ensures
        e !is Text && follows(Place::Unlock(shake), e, after) ==> after is List,
        follows(Place::Connect, e, after) ==> after == Place::Unlock(Shake::Serial),
        follows(Place::Unlock(Shake::Serial), Event::Text(t), after) ==> after == Place::Unlock(
            Shake::Fetch(t),
        ),
        shake is Fetch && unsigned_number(t, 16) is Err && follows(
            Place::Unlock(shake),
            Event::Text(t),
            after,
        ) ==> after is List,
        shake matches Shake::Fetch(serial) ==> unsigned_number(t, 16) is Ok ==> follows(
            Place::Unlock(shake),
            Event::Text(t),
            after,
        ) ==> (after matches Place::Unlock(Shake::Answer(s, n)) && s == serial && (n
            - unsigned_number(t, 16)->Ok_0) % 0x1_0000_0000 == 0),
        shake matches Shake::Answer(serial, n) ==> follows(
            Place::Unlock(shake),
            Event::Text(t),
            after,
        ) ==> after == Place::Unlock(Shake::Report(serial, t)),
        shake is Report && follows(Place::Unlock(shake), Event::Text(t), after) ==> after is List,
{
}

/// The slot that is created is the one that the listing leaves, and the track
/// goes into the slot that was created.
pub proof fn law_track_goes_where_the_slot_is(e: Event, slot: Seq<char>, after: Place)
    ensures
        follows(Place::List, e, after) ==> after is Create,
        e matches Event::Payload(bytes) ==> follows(Place::List, e, after) ==> is_upload_slot(
            Some(bytes),
            after->Create_0,
        ),
        e !is Payload && follows(Place::List, e, after) ==> after == Place::Create("A10"@),
        follows(Place::Create(slot), e, after) ==> after == Place::Push(slot),
        follows(Place::Push(slot), e, after) ==> after is Done,
{
}

/// What is sent at each place of an upload, byte for byte: the opening frame,
/// the bare command for the listing, and the command that creates the slot.
pub proof fn law_what_an_upload_sends(slot: Seq<char>, a: Action)
    ensures
        is_action(Place::Connect, a) ==> (a matches Action::Connect(frame) && wire(frame@) == seq![
            1u8,
            0u8,
            2u8,
        ]),
        is_action(Place::List, a) ==> (a matches Action::Ask(cmd) && wire(cmd.message()) == seq![
            2u8,
            0u8,
            4u8,
            3u8,
        ]),
        is_action(Place::Create(slot), a) ==> (a matches Action::Create(cmd) && cmd.message()
            == (Message {
            op: 0x04,
            payload: seq![0x08u8] + encode_utf8("{\"album\":"@ + quoted(slot) + "}"@).push(0),
        })),
        is_action(Place::Push(slot), a) ==> (a matches Action::Push(t) && t@ == slot),
        is_action(Place::Release, a) ==> a is Release,
        is_action(Place::Split, a) ==> a is Split,
        is_action(Place::Reopen, a) ==> a is Reopen,
        is_action(Place::Load, a) ==> a is Load,
        is_action(Place::Done, a) ==> a is Finish,
{
    law_text_for_an_album(slot);
    match a {
        Action::Connect(frame) => {
            if is_action(Place::Connect, a) {
                assert(wire(frame@) =~= seq![1u8, 0u8, 2u8]);
            }
        },
        Action::Ask(cmd) => {
            if is_action(Place::List, a) {
                assert(wire(cmd.message()) =~= seq![2u8, 0u8, 4u8, 3u8]);
            }
        },
        _ => {},
    }
}

/// What the user is told of an upload, from its beginning to its end.
pub proof fn law_what_the_user_reads(u: Upload)
    ensures
        notices(u) == seq![
            Notice::Preparing,
            Notice::Splitting,
            Notice::StemsReady,
            Notice::Reopening,
            Notice::CreatingSlot,
            Notice::Pushing(Stage::AlbumConfig),
            Notice::Pushing(Stage::Vocals),
            Notice::Pushing(Stage::Bass),
            Notice::Pushing(Stage::Drums),
            Notice::Pushing(Stage::Other),
            Notice::Pushing(Stage::TrackConfig),
            Notice::Pushing(Stage::Done),
            Notice::Done,
        ],
        told_at(Place::Release) == seq![Notice::Preparing],
        told_at(Place::Split) == seq![Notice::Splitting],
        told_at(Place::Reopen) == seq![Notice::StemsReady, Notice::Reopening],
        forall|slot: Seq<char>| #[trigger]
            told_at(Place::Create(slot)) == seq![Notice::CreatingSlot],
        told_at(Place::Done) == seq![Notice::Done],
{
    assert(stages_in(u.steps()) == seq![
        Stage::AlbumConfig,
        Stage::Vocals,
        Stage::Bass,
        Stage::Drums,
        Stage::Other,
        Stage::TrackConfig,
        Stage::Done,
    ]) by {
        law_order_of_files(u);
    }
}

/// A stage of the track's upload is told when it begins, and nothing else is.
pub proof fn law_stages_are_told(stage: Stage, m: Message, ms: int)
    ensures
        told_with(Step::Stage(stage)) == Some(Notice::Pushing(stage)),
        told_with(Step::Wait(ms)) is None,
        told_with(Step::Send(m)) is None,
{
}

/// The frames among some steps are those that are sent, each in its turn.
pub proof fn law_frames_in_order(list: Seq<Step>, m: Message, step: Step)
    ensures
        frames_in(Seq::empty()) == Seq::<Message>::empty(),
        frames_in(list.push(Step::Send(m))) == frames_in(list).push(m),
        step !is Send ==> frames_in(list.push(step)) == frames_in(list),
{
    assert(list.push(Step::Send(m)).drop_last() =~= list);
    assert(list.push(step).drop_last() =~= list);
}

} // verus!

//! The device as the host sees it: how it is found among the others on the
//! bus, and how its replies are taken.
//!
//! The device has one interface with two bulk endpoints. The whole protocol
//! runs over those; there are no control transfers.
use crate::error::Error;
use crate::frame::{
    fits, has_opcode, law_read_back, read_frame, wire, Frame, Message, OP_ACK, OP_CONNECT,
    OP_DISCONNECT, OP_NAK, OP_RESPONSE,
};
use crate::text::{optional_text, same_text};
use vstd::prelude::*;

verus! {

pub const STEM_PLAYER_VID: u16 = 0x1209;

pub const STEM_PLAYER_PID: u16 = 0x572a;

pub const INTERFACE_NUMBER: u8 = 0;

pub const ENDPOINT_IN: u8 = 0x81;

pub const ENDPOINT_OUT: u8 = 0x01;

/// How long a read waits, in milliseconds.
pub const READ_TIMEOUT_MS: u64 = 5000;

/// How long the reply to the opening frame is waited for, in milliseconds.
pub const CONNECT_TIMEOUT_MS: u64 = 1500;

/// How many bytes a read takes at most.
pub const READ_BUFFER_SIZE: usize = 16384;

/// What the bus tells of a device.
#[derive(Clone, Debug, PartialEq, Eq)]
pub struct DeviceInfo {
    pub vendor_id: u16,
    pub product_id: u16,
    pub manufacturer: Option<String>,
    pub product: Option<String>,
    pub serial: Option<String>,
}

/// Whether the device is a Stem Player.
pub open spec fn is_stem_player(d: DeviceInfo) -> bool {
    d.vendor_id == STEM_PLAYER_VID && d.product_id == STEM_PLAYER_PID
}

/// Whether `d` is the wanted device: the same identifiers and, where the
/// wanted one has a serial number, the same serial number.
pub open spec fn is_wanted(d: DeviceInfo, wanted: DeviceInfo) -> bool {
    &&& d.vendor_id == wanted.vendor_id
    &&& d.product_id == wanted.product_id
    &&& wanted.serial is None || optional_text(d.serial) == optional_text(wanted.serial)
}

/// The Stem Players among the listed devices, in order.
pub fn find_devices(listed: Vec<DeviceInfo>) -> (res: Vec<DeviceInfo>)
    ensures
        res@ == listed@.filter(|d: DeviceInfo| is_stem_player(d)),
{
    let ghost all = listed@;
    let ghost wanted = |d: DeviceInfo| is_stem_player(d);
    let mut out: Vec<DeviceInfo> = Vec::new();
    assert(all.take(0).filter(wanted) =~= Seq::empty()) by {
        reveal(Seq::filter);
    }
    for d in it: listed
        invariant
            it.seq() == all,
            wanted == (|d: DeviceInfo| is_stem_player(d)),
            out@ == all.take(it.index() as int).filter(wanted),
    {
        let ghost i = it.index() as int;
        assert(all.take(i + 1).drop_last() =~= all.take(i));
        assert(all.take(i + 1).filter(wanted) == (if wanted(all[i]) {
            all.take(i).filter(wanted).push(all[i])
        } else {
            all.take(i).filter(wanted)
        })) by {
            reveal(Seq::filter);
        }
        if d.vendor_id == STEM_PLAYER_VID && d.product_id == STEM_PLAYER_PID {
            out.push(d);
        }
    }
    assert(all.take(all.len() as int) =~= all);
    out
}

/// The first of the found devices.
pub fn first_device(found: Vec<DeviceInfo>) -> (res: Result<DeviceInfo, String>)
    ensures
        match res {
            Ok(d) => found@.len() > 0 && d == found@[0],
            Err(e) => found@.len() == 0 && e@ == "No Stem Player found"@,
        },
        forall|d: DeviceInfo, rest: Seq<DeviceInfo>|
            found@ == #[trigger] (seq![d] + rest) ==> res == Ok::<DeviceInfo, String>(d),
{
    let mut found = found;
    if found.len() == 0 {
        return Err("No Stem Player found".to_owned());
    }
    Ok(found.remove(0))
}

fn same_optional(a: &Option<String>, b: &Option<String>) -> (res: bool)
    ensures
        res == (optional_text(*a) == optional_text(*b)),
{
    match (a, b) {
        (Some(x), Some(y)) => same_text(x.as_str(), y.as_str()),
        (None, None) => true,
        _ => false,
    }
}

/// Where the wanted device stands among the listed ones: the first that fits.
pub fn select_device(listed: &Vec<DeviceInfo>, wanted: &DeviceInfo) -> (res: Result<usize, Error>)
    ensures
        match res {
            Ok(i) => i < listed@.len() && is_wanted(listed@[i as int], *wanted) && forall|j: int|
                0 <= j < i ==> !is_wanted(#[trigger] listed@[j], *wanted),
            Err(e) => e is NotFound && forall|j: int|
                0 <= j < listed@.len() ==> !is_wanted(#[trigger] listed@[j], *wanted),
        },
        forall|j: int|
            0 <= j < listed@.len() && (#[trigger] listed@[j]).vendor_id == wanted.vendor_id
                && listed@[j].product_id == wanted.product_id && (wanted.serial matches Some(s)
                ==> listed@[j].serial matches Some(t) && t@ == s@) ==> res is Ok && res->Ok_0 <= j,
{
    let mut i: usize = 0;
    while i < listed.len()
        invariant
            i <= listed@.len(),
            forall|j: int| 0 <= j < i ==> !is_wanted(#[trigger] listed@[j], *wanted),
        decreases listed@.len() - i,
    {
        let d: &DeviceInfo = &listed[i];
        if d.vendor_id == wanted.vendor_id && d.product_id == wanted.product_id && (
        wanted.serial.is_none() || same_optional(&d.serial, &wanted.serial)) {
            return Ok(i);
        }
        i = i + 1;
    }
    Err(Error::NotFound)
}

/// The frame that opens a session.
pub fn connect_frame() -> (res: Frame)
    ensures
        res@ == (Message { op: OP_CONNECT, payload: Seq::empty() }),
        wire(res@) == seq![1u8, 0u8, 2u8],
{
    Frame::new(OP_CONNECT, Vec::new())
}

/// The frame that closes a session.
pub fn disconnect_frame() -> (res: Frame)
    ensures
        res@ == (Message { op: OP_DISCONNECT, payload: Seq::empty() }),
        wire(res@) == seq![1u8, 0u8, 3u8],
{
    Frame::new(OP_DISCONNECT, Vec::new())
}

/// The payload of the frame that was read.
pub fn response_payload(buf: &[u8]) -> (res: Result<Vec<u8>, Error>)
    requires
        has_opcode(buf@),
    ensures
        match res {
            Ok(payload) => read_frame(buf@) is Ok && payload@ == read_frame(buf@)->Ok_0.payload,
            Err(e) => read_frame(buf@) == Err::<Message, Error>(e),
        },
        forall|m: Message, behind: Seq<u8>|
            fits(m) && buf@ == #[trigger] (wire(m) + behind) ==> res is Ok && res->Ok_0@
                == m.payload,
{
    proof {
        assert forall|m: Message, behind: Seq<u8>|
            fits(m) && buf@ == #[trigger] (wire(m) + behind) implies read_frame(buf@) == Ok::<
            Message,
            Error,
        >(m) by {
            law_read_back(m, behind);
        }
    }
    match Frame::decode(buf) {
        Ok(frame) => Ok(frame.payload),
        Err(e) => Err(e),
    }
}

/// What is to be done after a frame came while an acknowledgement is awaited.
#[derive(Debug)]
pub enum AckStep {
    /// The frame is the acknowledgement: the wait is over.
    Done,
    /// The frame is a response: send this frame back, then read on.
    Answer(Frame),
    /// The frame is something else: read on.
    ReadOn,
}

/// Whether the wait is over after this step.
pub open spec fn ends_wait(step: AckStep) -> bool {
    step is Done
}

/// Whether a frame is an acknowledgement. A negative one counts, whatever its
/// status: the device sends it for every piece of a long file.
pub open spec fn is_acknowledgement(m: Message) -> bool {
    m.op == OP_ACK || m.op == OP_NAK
}

/// Takes a frame that came while an acknowledgement is awaited. Only an
/// acknowledgement ends the wait; the device may send other frames before it.
/// A response among them is acknowledged by the host, without which the device
/// does not go on.
pub fn ack_step(buf: &[u8]) -> (res: Result<AckStep, Error>)
    requires
        has_opcode(buf@),
    ensures
        is_step_of(res, buf@),
{
    match Frame::decode(buf) {
        Err(e) => Err(e),
        Ok(frame) => if frame.op == OP_ACK || frame.op == OP_NAK {
            Ok(AckStep::Done)
        } else if frame.op == OP_RESPONSE {
            Ok(AckStep::Answer(Frame::ack()))
        } else {
            Ok(AckStep::ReadOn)
        },
    }
}

/// How a wait for an acknowledgement ended: after how many reads, and with which
/// error if not with the acknowledgement.
#[verifier::ext_equal]
pub ghost struct WaitEnd {
    pub reads: nat,
    pub failure: Option<Error>,
}

/// How the wait ends if these are the frames that are read; nothing where it is
/// not over after them. `steps` are what `ack_step` makes of the frames.
pub open spec fn wait_end(steps: Seq<Result<AckStep, Error>>) -> Option<WaitEnd>
    decreases steps.len(),
{
    if steps.len() == 0 {
        None
    } else {
        match steps[0] {
            Err(e) => Some(WaitEnd { reads: 1, failure: Some(e) }),
            Ok(step) => if ends_wait(step) {
                Some(WaitEnd { reads: 1, failure: None })
            } else {
                match wait_end(steps.drop_first()) {
                    Some(end) => Some(WaitEnd { reads: end.reads + 1, ..end }),
                    None => None,
                }
            },
        }
    }
}

/// Whether a step is what `ack_step` makes of a frame.
pub open spec fn is_step_of(step: Result<AckStep, Error>, frame: Seq<u8>) -> bool {
    match read_frame(frame) {
        Err(e) => step is Err && step->Err_0 == e,
        Ok(m) => {
            &&& step is Ok
            &&& ends_wait(step->Ok_0) <==> is_acknowledgement(m)
            &&& step->Ok_0 is Answer <==> m.op == OP_RESPONSE
            &&& step->Ok_0 is Answer ==> step->Ok_0->Answer_0@ == (Message {
                op: OP_ACK,
                payload: Seq::empty(),
            })
        },
    }
}

/// A wait ends with the first acknowledgement, after exactly as many reads as
/// there are frames up to it, whatever other frames come before; or with the
/// error of the first frame that cannot be read, if that comes first.
pub proof fn law_wait_ends_with_the_acknowledgement(
    frames: Seq<Seq<u8>>,
    steps: Seq<Result<AckStep, Error>>,
    last: int,
)
    requires
        0 <= last < frames.len(),
        steps.len() == frames.len(),
        forall|i: int| 0 <= i < frames.len() ==> is_step_of(#[trigger] steps[i], frames[i]),
        forall|i: int|
            0 <= i < last ==> read_frame(#[trigger] frames[i]) is Ok && !is_acknowledgement(
                read_frame(frames[i])->Ok_0,
            ),
        read_frame(frames[last]) is Ok ==> is_acknowledgement(read_frame(frames[last])->Ok_0),
    ensures
        wait_end(steps) == Some(
            WaitEnd {
                reads: (last + 1) as nat,
                failure: match read_frame(frames[last]) {
                    Ok(_) => None,
                    Err(e) => Some(e),
                },
            },
        ),
    decreases last,
{
    assert(is_step_of(steps[0], frames[0]));
    if last > 0 {
        let more = frames.drop_first();
        let rest = steps.drop_first();
        assert forall|i: int| 0 <= i < more.len() implies is_step_of(
            #[trigger] rest[i],
            more[i],
        ) by {
            assert(is_step_of(steps[i + 1], frames[i + 1]));
        }
        assert forall|i: int| 0 <= i < last - 1 implies read_frame(#[trigger] more[i]) is Ok
            && !is_acknowledgement(read_frame(more[i])->Ok_0) by {
            assert(more[i] == frames[i + 1]);
        }
        law_wait_ends_with_the_acknowledgement(more, rest, last - 1);
    }
}

/// As long as no acknowledgement and no unreadable frame comes, the wait goes
/// on.
pub proof fn law_wait_goes_on(frames: Seq<Seq<u8>>, steps: Seq<Result<AckStep, Error>>)
    requires
        steps.len() == frames.len(),
        forall|i: int| 0 <= i < frames.len() ==> is_step_of(#[trigger] steps[i], frames[i]),
        forall|i: int|
            0 <= i < frames.len() ==> read_frame(#[trigger] frames[i]) is Ok
                && !is_acknowledgement(read_frame(frames[i])->Ok_0),
    ensures
        wait_end(steps) is None,
    decreases frames.len(),
{
    if frames.len() > 0 {
        let more = frames.drop_first();
        let rest = steps.drop_first();
        assert(is_step_of(steps[0], frames[0]));
        assert forall|i: int| 0 <= i < more.len() implies is_step_of(
            #[trigger] rest[i],
            more[i],
        ) by {
            assert(is_step_of(steps[i + 1], frames[i + 1]));
        }
        assert forall|i: int| 0 <= i < more.len() implies read_frame(#[trigger] more[i]) is Ok
            && !is_acknowledgement(read_frame(more[i])->Ok_0) by {
            assert(more[i] == frames[i + 1]);
        }
        law_wait_goes_on(more, rest);
    }
}

/// Anything that can be sent as one frame.
pub trait AsFrame {
    /// What the frame says.
    spec fn message(&self) -> Message;

    fn as_frame(&self) -> (res: Frame)
        ensures
            res@ == self.message(),
    ;
}

impl AsFrame for Frame {
    open spec fn message(&self) -> Message {
        self@
    }

    fn as_frame(&self) -> (res: Frame) {
        Frame { op: self.op, payload: self.payload.clone() }
    }
}

/// Every device that `find_devices` gives is a Stem Player, and it leaves none
/// out.
pub proof fn law_finds_stem_players(listed: Seq<DeviceInfo>, d: DeviceInfo)
    ensures
        listed.filter(|d: DeviceInfo| is_stem_player(d)).contains(d) <==> listed.contains(d)
            && is_stem_player(d),
{
    let pred = |d: DeviceInfo| is_stem_player(d);
    if listed.filter(pred).contains(d) {
        broadcast use vstd::seq_lib::group_filter_ensures;

        listed.lemma_filter_contains_rev(pred, d);
        let i = choose|i: int| 0 <= i < listed.filter(pred).len() && listed.filter(pred)[i] == d;
        assert(pred(listed.filter(pred)[i]));
    }
    if listed.contains(d) && is_stem_player(d) {
        let i = choose|i: int| 0 <= i < listed.len() && listed[i] == d;
        listed.lemma_filter_contains(pred, i);
    }
}

/// The frames that end a wait are those with opcode 0x00 or 0x01, whatever their
/// payload. One with opcode 0x05 is answered with the three bytes 01 00 00, and
/// any other is passed over.
pub proof fn law_what_acknowledges(m: Message, behind: Seq<u8>, step: Result<AckStep, Error>)
    requires
        fits(m),
        is_step_of(step, wire(m) + behind),
    ensures
        step is Ok,
        step->Ok_0 is Done <==> m.op == 0x00 || m.op == 0x01,
        step->Ok_0 is Answer <==> m.op == 0x05,
        step->Ok_0 matches AckStep::Answer(frame) ==> wire(frame@) == seq![1u8, 0u8, 0u8],
{
    law_read_back(m, behind);
    if step->Ok_0 is Answer {
        assert(wire(step->Ok_0->Answer_0@) =~= seq![1u8, 0u8, 0u8]);
    }
}

/// The devices found are those of the list with the two identifiers of a Stem
/// Player, all of them, in the order of the list.
pub proof fn law_finds_by_the_identifiers(listed: Seq<DeviceInfo>)
    ensures
        listed.filter(|d: DeviceInfo| is_stem_player(d)) == listed.filter(
            |d: DeviceInfo| d.vendor_id == 0x1209 && d.product_id == 0x572a,
        ),
    decreases listed.len(),
{
    reveal(Seq::filter);
    if listed.len() > 0 {
        law_finds_by_the_identifiers(listed.drop_last());
    }
}

/// A device that is wanted without a serial number is any with its identifiers;
/// one that is wanted with a serial number must have that one too.
pub proof fn law_what_is_wanted(d: DeviceInfo, wanted: DeviceInfo)
    ensures
        is_wanted(d, wanted) ==> d.vendor_id == wanted.vendor_id && d.product_id
            == wanted.product_id,
        wanted.serial is None ==> (is_wanted(d, wanted) <==> d.vendor_id == wanted.vendor_id
            && d.product_id == wanted.product_id),
        wanted.serial is Some ==> (is_wanted(d, wanted) <==> d.vendor_id == wanted.vendor_id
            && d.product_id == wanted.product_id && d.serial is Some && d.serial->0@
            == wanted.serial->0@),
{
}

/// Where the device is spoken to, how long a read waits, and how much it takes.
pub proof fn law_endpoints()
    ensures
        INTERFACE_NUMBER == 0 && ENDPOINT_IN == 0x81 && ENDPOINT_OUT == 0x01,
        READ_TIMEOUT_MS == 5000 && CONNECT_TIMEOUT_MS == 1500,
        READ_BUFFER_SIZE == 16384,
{
}

} // verus!

//! The authentication handshake. The device takes files only after it has
//! answered a challenge from the vendor's service.
//!
//! The host asks the device for its serial number, fetches a challenge for it,
//! hands the challenge to the device, and reports the device's answer back.
use crate::commands::{carries, challenge_tree, law_text_for_a_challenge, sub, Cmd04};
use crate::error::{fails_with, Error};
use crate::frame::{has_opcode, law_read_back, read_frame, wire, Frame, Message, OP_RESPONSE};
use crate::json::{
    as_str, compact, compact_members, from_slice, get, law_one_more_member,
    law_plain_text_is_quoted_as_it_is, member, new_object, object, parsed, quoted, text, text_at,
    to_text, tree, with_member, Json,
};
use crate::library::{law_reply_is_found, reply_body, strip_reply};
use crate::text::{joined, read_unsigned, signed_decimal, unsigned_number, NumberError};
use serde_json::Value;
use vstd::prelude::*;
use vstd::utf8::encode_utf8;

verus! {

/// How many frames are read at most until a reply is given up.
pub const REPLY_READS: u64 = 4;

/// What is to be done after a frame came while a reply is awaited.
#[derive(Debug)]
pub enum ReplyStep {
    /// The frame is the reply, and this is what it says.
    Found(String),
    /// The frame is something else: read on.
    ReadOn,
}

/// A reply that is awaited: the sub-command that it answers, the name of the
/// text in it, and what is said where it does not come as it should.
pub struct Awaited {
    pub sub: u8,
    pub key: &'static str,
    pub not_json: &'static str,
    pub missing: &'static str,
    pub never: &'static str,
}

/// The reply that tells the device's serial number.
pub open spec fn awaits_serial(a: Awaited) -> bool {
    &&& a.sub == sub::VERSION
    &&& a.key@ == "sn"@
    &&& a.not_json@ == "VERSION response not JSON: "@
    &&& a.missing@ == "VERSION missing .sn: "@
    &&& a.never@ == "device never returned VERSION info"@
}

/// The reply that answers the challenge.
pub open spec fn awaits_answer(a: Awaited) -> bool {
    &&& a.sub == sub::CHALLENGE
    &&& a.key@ == "response"@
    &&& a.not_json@ == "challenge response not JSON: "@
    &&& a.missing@ == "challenge response missing .response string: "@
    &&& a.never@ == "device never returned a CHALLENGE response"@
}

/// The reply that tells the device's serial number.
pub fn serial_reply() -> (res: Awaited)
    ensures
        awaits_serial(res),
{
    Awaited {
        sub: sub::VERSION,
        key: "sn",
        not_json: "VERSION response not JSON: ",
        missing: "VERSION missing .sn: ",
        never: "device never returned VERSION info",
    }
}

/// The reply that answers the challenge.
pub fn challenge_reply() -> (res: Awaited)
    ensures
        awaits_answer(res),
{
    Awaited {
        sub: sub::CHALLENGE,
        key: "response",
        not_json: "challenge response not JSON: ",
        missing: "challenge response missing .response string: ",
        never: "device never returned a CHALLENGE response",
    }
}

/// Whether the frame is a response to this sub-command.
pub open spec fn is_reply(m: Message, sub: u8) -> bool {
    m.op == OP_RESPONSE && m.payload.len() > 0 && m.payload[0] == sub
}

impl Awaited {
    /// Whether `res` is what the reply with this JSON says.
    pub open spec fn is_text_of(self, j: Json, res: Result<String, Error>) -> bool {
        match text_at(j, self.key@) {
            Some(t) => res is Ok && res->Ok_0@ == t,
            None => fails_with(res, self.missing@ + compact(j)),
        }
    }

    /// Whether `res` is what this payload of the reply says.
    pub open spec fn is_text_in(self, payload: Seq<u8>, res: Result<String, Error>) -> bool {
        match parsed(reply_body(payload)) {
            Ok(j) => self.is_text_of(j, res),
            Err(e) => fails_with(res, self.not_json@ + e),
        }
    }

    /// What the reply with this JSON says.
    pub fn text_of(&self, v: &Value) -> (res: Result<String, Error>)
        ensures
            self.is_text_of(tree(*v), res),
    {
        if let Some(found) = get(v, self.key) {
            if let Some(t) = as_str(found) {
                return Ok(t.to_owned());
            }
        }
        Err(Error::Other(joined(self.missing, to_text(v).as_str())))
    }

    /// What this payload of the reply says.
    pub fn text_in(&self, payload: &[u8]) -> (res: Result<String, Error>)
        ensures
            self.is_text_in(payload@, res),
    {
        match from_slice(strip_reply(payload)) {
            Ok(v) => self.text_of(&v),
            Err(e) => Err(Error::Other(joined(self.not_json, e.as_str()))),
        }
    }

    /// Whether `res` is what comes of the frame with these bytes, read as
    /// number `reads`.
    pub open spec fn is_step(
        self,
        bytes: Seq<u8>,
        reads: int,
        res: Result<ReplyStep, Error>,
    ) -> bool {
        match read_frame(bytes) {
            Err(e) => res is Err && res->Err_0 == e,
            Ok(m) => if is_reply(m, self.sub) {
                match res {
                    Ok(step) => step is Found && self.is_text_in(
                        m.payload,
                        Ok::<String, Error>(step->Found_0),
                    ),
                    Err(e) => self.is_text_in(m.payload, Err::<String, Error>(e)),
                }
            } else if reads < REPLY_READS {
                res is Ok && res->Ok_0 is ReadOn
            } else {
                fails_with(res, self.never@)
            },
        }
    }

    /// Takes the frame that was read as number `reads` while the reply is
    /// awaited. Frames that are no reply are passed over, but only so many.
    pub fn step(&self, buf: &[u8], reads: u64) -> (res: Result<ReplyStep, Error>)
        requires
            has_opcode(buf@),
        ensures
            self.is_step(buf@, reads as int, res),
            read_frame(buf@) matches Ok(m) ==> m.op == 0x05 && m.payload.len() > 0
                && m.payload[0] == self.sub ==> (parsed(reply_body(m.payload)) matches Ok(j)
                ==> member(j, self.key@) matches Some(Json::Text(t)) ==> res is Ok
                && res->Ok_0 is Found && res->Ok_0->Found_0@ == t),
    {
        let frame: Frame = Frame::decode(buf)?;
        if frame.op == OP_RESPONSE && frame.payload.len() > 0 && frame.payload[0] == self.sub {
            match self.text_in(frame.payload.as_slice()) {
                Ok(t) => Ok(ReplyStep::Found(t)),
                Err(e) => Err(e),
            }
        } else if reads < REPLY_READS {
            Ok(ReplyStep::ReadOn)
        } else {
            Err(Error::Other(self.never.to_owned()))
        }
    }
}

/// A 32-bit number as the signed number with the same bits.
pub open spec fn same_bits(n: int) -> int {
    if n >= 0x8000_0000 {
        n - 0x1_0000_0000
    } else {
        n
    }
}

/// The sentence on a text that is no number.
pub open spec fn number_sentence(e: NumberError) -> Seq<char> {
    match e {
        NumberError::Empty => "cannot parse integer from empty string"@,
        NumberError::InvalidDigit => "invalid digit found in string"@,
        NumberError::TooLarge => "number too large to fit in target type"@,
    }
}

fn number_message(e: NumberError) -> (res: &'static str)
    ensures
        res@ == number_sentence(e),
{
    match e {
        NumberError::Empty => "cannot parse integer from empty string",
        NumberError::InvalidDigit => "invalid digit found in string",
        NumberError::TooLarge => "number too large to fit in target type",
    }
}

/// The challenge that the service sends in hexadecimal, as the signed number
/// that the device takes.
pub fn read_challenge(hex: &str) -> (res: Result<i32, Error>)
    ensures
        match unsigned_number(hex@, 16) {
            Ok(n) => res is Ok && res->Ok_0 == same_bits(n),
            Err(e) => fails_with(res, "challenge hex parse: "@ + number_sentence(e)),
        },
{
    match read_unsigned(hex, 16) {
        Ok(n) => if n >= 0x8000_0000 {
            Ok((n as i64 - 0x1_0000_0000) as i32)
        } else {
            Ok(n as i32)
        },
        Err(e) => Err(Error::Other(joined("challenge hex parse: ", number_message(e)))),
    }
}

/// What the service is sent for a challenge.
pub open spec fn challenge_body(serial: Seq<char>) -> Json {
    Json::Object(seq![("device_id"@, Json::Text(serial))])
}

/// What the service is sent with the device's answer.
pub open spec fn login_body(serial: Seq<char>, answer: Seq<char>) -> Json {
    Json::Object(
        seq![
            ("device_id"@, Json::Text(serial)),
            ("challenge_response"@, Json::Text(answer)),
        ],
    )
}

/// What the service is sent for a challenge.
pub fn challenge_request(serial: &str) -> (res: Value)
    ensures
        tree(res) == challenge_body(serial@),
{
    let m = with_member(new_object(), "device_id", text(serial));
    let res: Value = object(m);
    assert(tree(res)->Object_0 =~= seq![("device_id"@, Json::Text(serial@))]);
    res
}

/// What the service is sent with the device's answer.
pub fn login_request(serial: &str, answer: &str) -> (res: Value)
    ensures
        tree(res) == login_body(serial@, answer@),
{
    proof {
        reveal_strlit("device_id");
        reveal_strlit("challenge_response");
        assert("device_id"@.len() == 9 && "challenge_response"@.len() == 18);
    }
    let m = with_member(new_object(), "device_id", text(serial));
    let m = with_member(m, "challenge_response", text(answer));
    let res: Value = object(m);
    assert(tree(res)->Object_0 =~= seq![
        ("device_id"@, Json::Text(serial@)),
        ("challenge_response"@, Json::Text(answer@)),
    ]);
    res
}

/// How far the handshake has come.
#[derive(Debug)]
pub enum Handshake {
    /// The device is to be asked for its serial number.
    Serial,
    /// A challenge is to be fetched for this serial number.
    Fetch(String),
    /// The device is to be handed this challenge.
    Answer(String, i32),
    /// This answer is to be reported.
    Report(String, String),
    /// The device is unlocked.
    Done,
}

/// How far the handshake has come, in texts and numbers.
pub ghost enum Shake {
    Serial,
    Fetch(Seq<char>),
    Answer(Seq<char>, int),
    Report(Seq<char>, Seq<char>),
    Done,
}

impl View for Handshake {
    type V = Shake;

    open spec fn view(&self) -> Shake {
        match self {
            Handshake::Serial => Shake::Serial,
            Handshake::Fetch(serial) => Shake::Fetch(serial@),
            Handshake::Answer(serial, n) => Shake::Answer(serial@, *n as int),
            Handshake::Report(serial, answer) => Shake::Report(serial@, answer@),
            Handshake::Done => Shake::Done,
        }
    }
}

impl Shake {
    /// The handshake after its current action brought this text; nothing where
    /// the text is a challenge that is no number.
    pub open spec fn after(self, t: Seq<char>) -> Option<Shake> {
        match self {
            Shake::Serial => Some(Shake::Fetch(t)),
            Shake::Fetch(serial) => match unsigned_number(t, 16) {
                Ok(n) => Some(Shake::Answer(serial, same_bits(n))),
                Err(_) => None,
            },
            Shake::Answer(serial, _) => Some(Shake::Report(serial, t)),
            Shake::Report(_, _) => Some(Shake::Done),
            Shake::Done => Some(Shake::Done),
        }
    }
}

/// What the handshake asks for next.
pub enum AuthAction {
    /// Send the command to the device and wait for its reply.
    Exchange(Cmd04, Awaited),
    /// Send this to the service for a challenge.
    Fetch(Value),
    /// Send this to the service with the answer. What it says does not matter.
    Report(Value),
    /// Nothing more.
    Stop,
}

/// Whether the action is the one that the handshake asks for next.
pub open spec fn is_auth_action(s: Shake, a: AuthAction) -> bool {
    match s {
        Shake::Serial => a is Exchange && a->Exchange_0.sub == sub::VERSION
            && a->Exchange_0.payload@.len() == 0 && awaits_serial(a->Exchange_1),
        Shake::Fetch(serial) => a is Fetch && tree(a->Fetch_0) == challenge_body(serial),
        Shake::Answer(_, n) => a is Exchange && a->Exchange_0.sub == sub::CHALLENGE && carries(
            a->Exchange_0.payload@,
            challenge_tree(n),
        ) && awaits_answer(a->Exchange_1),
        Shake::Report(serial, answer) => a is Report && tree(a->Report_0) == login_body(
            serial,
            answer,
        ),
        Shake::Done => a is Stop,
    }
}

impl Handshake {
    /// A handshake before its first action.
    pub fn new() -> (res: Handshake)
        ensures
            res@ == Shake::Serial,
    {
        Handshake::Serial
    }

    /// What is to be done next.
    pub fn action(&self) -> (res: Result<AuthAction, Error>)
        ensures
            res is Ok,
            is_auth_action(self@, res->Ok_0),
    {
        match self {
            Handshake::Serial => Ok(
                AuthAction::Exchange(Cmd04::bare(sub::VERSION), serial_reply()),
            ),
            Handshake::Fetch(serial) => Ok(AuthAction::Fetch(challenge_request(serial.as_str()))),
            Handshake::Answer(_, n) => {
                let cmd: Cmd04 = Cmd04::challenge(*n)?;
                Ok(AuthAction::Exchange(cmd, challenge_reply()))
            },
            Handshake::Report(serial, answer) => Ok(
                AuthAction::Report(login_request(serial.as_str(), answer.as_str())),
            ),
            Handshake::Done => Ok(AuthAction::Stop),
        }
    }

    /// The handshake after its action brought this text. A failure ends it.
    pub fn next(self, outcome: Result<String, Error>) -> (res: Result<Handshake, Error>)
        ensures
            match outcome {
                Err(e) => res is Err && res->Err_0 == e,
                Ok(t) => match self@.after(t@) {
                    Some(s) => res is Ok && res->Ok_0@ == s,
                    None => fails_with(
                        res,
                        "challenge hex parse: "@ + number_sentence(
                            unsigned_number(t@, 16)->Err_0,
                        ),
                    ),
                },
            },
    {
        let t: String = outcome?;
        match self {
            Handshake::Serial => Ok(Handshake::Fetch(t)),
            Handshake::Fetch(serial) => {
                let n: i32 = read_challenge(t.as_str())?;
                Ok(Handshake::Answer(serial, n))
            },
            Handshake::Answer(serial, _) => Ok(Handshake::Report(serial, t)),
            Handshake::Report(_, _) => Ok(Handshake::Done),
            Handshake::Done => Ok(Handshake::Done),
        }
    }
}

/// The signed number that the device takes is the challenge modulo the
/// thirty-second power of two, so no two challenges are confused.
pub proof fn law_challenges_stay_apart(n: u32, m: u32)
    ensures
        i32::MIN <= same_bits(n as int) <= i32::MAX,
        same_bits(n as int) % 0x1_0000_0000 == n as int,
        same_bits(n as int) == same_bits(m as int) ==> n == m,
{
}

/// A response to the awaited sub-command is the reply, however long it is: the
/// text that its JSON has under the awaited name is found, with any number of
/// NULs behind the JSON and anything behind the frame.
pub proof fn law_reply_is_taken(
    a: Awaited,
    body: Seq<u8>,
    nuls: nat,
    behind: Seq<u8>,
    j: Json,
    t: Seq<char>,
    reads: int,
    res: Result<ReplyStep, Error>,
)
    requires
        2 + body.len() + nuls <= 0xffff,
        body.len() > 0 ==> body.last() != 0,
        parsed(body) == Ok::<Json, Seq<char>>(j),
        member(j, a.key@) == Some(Json::Text(t)),
        a.is_step(
            wire(
                Message { op: 0x05, payload: seq![a.sub] + body + Seq::new(nuls, |i: int| 0u8) },
            ) + behind,
            reads,
            res,
        ),
    ensures
        res matches Ok(step) && step is Found && step->Found_0@ == t,
{
    let payload = seq![a.sub] + body + Seq::new(nuls, |i: int| 0u8);
    law_read_back(Message { op: 0x05, payload }, behind);
    law_reply_is_found(a.sub, body, nuls);
}

/// A reply that does not say what is awaited is an error: one that is no JSON,
/// with the reader's words, and one without the awaited text, with what it says
/// instead.
pub proof fn law_reply_that_says_nothing(
    a: Awaited,
    body: Seq<u8>,
    nuls: nat,
    behind: Seq<u8>,
    reads: int,
    res: Result<ReplyStep, Error>,
)
    requires
        2 + body.len() + nuls <= 0xffff,
        body.len() > 0 ==> body.last() != 0,
        a.is_step(
            wire(
                Message { op: 0x05, payload: seq![a.sub] + body + Seq::new(nuls, |i: int| 0u8) },
            ) + behind,
            reads,
            res,
        ),
    ensures
        parsed(body) matches Err(e) ==> (res matches Err(Error::Other(t)) && t@ == a.not_json@ + e),
        parsed(body) matches Ok(j) ==> !(member(j, a.key@) is Some && member(j, a.key@)->0 is Text)
            ==> (res matches Err(Error::Other(t)) && t@ == a.missing@ + compact(j)),
{
    let payload = seq![a.sub] + body + Seq::new(nuls, |i: int| 0u8);
    law_read_back(Message { op: 0x05, payload }, behind);
    law_reply_is_found(a.sub, body, nuls);
}

/// Only the opcode and the first byte of the payload tell whether a frame is the
/// reply. One that is not is passed over, three times; the fourth ends the wait.
pub proof fn law_other_frames_are_passed_over(
    a: Awaited,
    m: Message,
    behind: Seq<u8>,
    reads: int,
    res: Result<ReplyStep, Error>,
)
    requires
        m.payload.len() < 0xffff,
        m.op != 0x05 || m.payload.len() == 0 || m.payload[0] != a.sub,
        a.is_step(wire(m) + behind, reads, res),
    ensures
        reads < 4 ==> res is Ok && res->Ok_0 is ReadOn,
        reads >= 4 ==> (res matches Err(Error::Other(t)) && t@ == a.never@),
{
    law_read_back(m, behind);
}

/// Bytes that are no frame end the wait with what is wrong with them.
pub proof fn law_no_frame_ends_the_wait(
    a: Awaited,
    bytes: Seq<u8>,
    reads: int,
    res: Result<ReplyStep, Error>,
)
    requires
        a.is_step(bytes, reads, res),
        read_frame(bytes) is Err,
    ensures
        res == Err::<ReplyStep, Error>(read_frame(bytes)->Err_0),
{
}

/// The whole handshake: the serial number goes to the service, its challenge to
/// the device as the number with the same 32 bits, and the device's answer back
/// to the service with the serial number.
pub proof fn law_handshake(serial: Seq<char>, hex: Seq<char>, answer: Seq<char>, n: u32)
    requires
        unsigned_number(hex, 16) == Ok::<int, NumberError>(n as int),
    ensures
        ({
            let asked = Shake::Serial.after(serial);
            let fetched = asked->0.after(hex);
            let answered = fetched->0.after(answer);
            let reported = answered->0.after(Seq::empty());
            &&& asked == Some(Shake::Fetch(serial))
            &&& fetched is Some
            &&& fetched->0 matches Shake::Answer(s, c) && s == serial && c % 0x1_0000_0000
                == n as int && i32::MIN <= c <= i32::MAX
            &&& answered == Some(Shake::Report(serial, answer))
            &&& reported == Some(Shake::Done)
        }),
{
}

/// A challenge that is no number in hexadecimal ends the handshake.
pub proof fn law_bad_challenge_ends_it(serial: Seq<char>, hex: Seq<char>)
    requires
        unsigned_number(hex, 16) is Err,
    ensures
        Shake::Fetch(serial).after(hex) is None,
{
}

/// What each action of the handshake sends: the bare command 0x01, the serial
/// number under "device_id", the command 0x12 with the challenge, and the serial
/// number with the answer under "challenge_response". The text awaited from the
/// device is "sn" for the first command and "response" for the other.
pub proof fn law_what_the_handshake_sends(
    serial: Seq<char>,
    answer: Seq<char>,
    n: int,
    a: AuthAction,
)
    ensures
        is_auth_action(Shake::Serial, a) ==> (a matches AuthAction::Exchange(cmd, awaited)
            && cmd.payload@.len() == 0 && cmd.sub == 0x01 && awaited.sub == 0x01 && awaited.key@
            == "sn"@),
        is_auth_action(Shake::Fetch(serial), a) ==> (a matches AuthAction::Fetch(v) && compact(
            tree(v),
        ) == "{\"device_id\":"@ + quoted(serial) + "}"@),
        is_auth_action(Shake::Answer(serial, n), a) ==> (a matches AuthAction::Exchange(
            cmd,
            awaited,
        ) && cmd.sub == 0x12 && awaited.sub == 0x12 && awaited.key@ == "response"@ && cmd.payload@
            == encode_utf8("{\"challenge\":"@ + signed_decimal(n) + "}"@).push(0)),
        is_auth_action(Shake::Report(serial, answer), a) ==> (a matches AuthAction::Report(v)
            && compact(tree(v)) == "{\"device_id\":"@ + quoted(serial)
            + ",\"challenge_response\":"@ + quoted(answer) + "}"@),
        is_auth_action(Shake::Done, a) ==> a is Stop,
{
    law_text_for_a_challenge(n);
    let none = Seq::<(Seq<char>, Json)>::empty();
    let one = none.push(("device_id"@, Json::Text(serial)));
    let two = one.push(("challenge_response"@, Json::Text(answer)));
    law_one_more_member(none, "device_id"@, Json::Text(serial));
    law_one_more_member(one, "challenge_response"@, Json::Text(answer));
    assert(challenge_body(serial)->Object_0 =~= one);
    assert(login_body(serial, answer)->Object_0 =~= two);
    reveal_strlit("device_id");
    reveal_strlit("challenge_response");
    law_plain_text_is_quoted_as_it_is("device_id"@);
    law_plain_text_is_quoted_as_it_is("challenge_response"@);
    reveal_strlit("{\"device_id\":");
    reveal_strlit(",\"challenge_response\":");
    reveal_strlit("}");
    assert(compact_members(none) =~= Seq::empty());
    assert(seq!['{'] + compact_members(one) =~= "{\"device_id\":"@ + quoted(serial));
    assert(seq!['{'] + compact_members(two) =~= "{\"device_id\":"@ + quoted(serial)
        + ",\"challenge_response\":"@ + quoted(answer));
    assert(compact(challenge_body(serial)) =~= "{\"device_id\":"@ + quoted(serial) + "}"@);
    assert(compact(login_body(serial, answer)) =~= "{\"device_id\":"@ + quoted(serial)
        + ",\"challenge_response\":"@ + quoted(answer) + "}"@);
}

/// The sentences on what is no number.
pub proof fn law_what_is_said_of_numbers()
    ensures
        number_sentence(NumberError::Empty) == "cannot parse integer from empty string"@,
        number_sentence(NumberError::InvalidDigit) == "invalid digit found in string"@,
        number_sentence(NumberError::TooLarge) == "number too large to fit in target type"@,
{
}

/// What is said where the device does not answer as it should.
pub proof fn law_what_is_said_of_replies(a: Awaited)
    ensures
        awaits_serial(a) ==> a.not_json@ == "VERSION response not JSON: "@ && a.missing@
            == "VERSION missing .sn: "@ && a.never@ == "device never returned VERSION info"@,
        awaits_answer(a) ==> a.not_json@ == "challenge response not JSON: "@ && a.missing@
            == "challenge response missing .response string: "@ && a.never@
            == "device never returned a CHALLENGE response"@,
{
}

} // verus!

//! The frame: the one unit that travels over the two bulk endpoints.
//!
//! A frame is a 16-bit little-endian length, an opcode and a payload. The
//! length counts the opcode and the payload, so a frame without payload has
//! length one.
use crate::error::Error;
use vstd::prelude::*;
use vstd::slice::{slice_subrange, slice_to_vec};

verus! {

/// Generic acknowledgement, without payload.
pub const OP_ACK: u8 = 0x00;

/// Negative acknowledgement. Payload: a status byte.
pub const OP_NAK: u8 = 0x01;

/// The host takes the session; the device then accepts commands and files.
pub const OP_CONNECT: u8 = 0x02;

/// The host gives the session back.
pub const OP_DISCONNECT: u8 = 0x03;

/// A command. Payload: a sub-command byte and optional JSON.
pub const OP_CMD: u8 = 0x04;

/// The device's answer to a command. Payload: the sub-command, JSON and NULs.
pub const OP_RESPONSE: u8 = 0x05;

/// Announces a file. Payload: JSON and a NUL.
pub const OP_FILE_HEADER: u8 = 0x06;

/// A piece of a file. Payload: 32-bit size, a flag byte and the bytes.
pub const OP_FILE_CHUNK: u8 = 0x07;

/// Cancels the operation in progress.
pub const OP_ABORT: u8 = 0x08;

/// The largest number that the length field holds.
pub const MAX_LENGTH: usize = 0xffff;

/// An opcode and its payload.
#[derive(Clone, Debug, PartialEq, Eq)]
pub struct Frame {
    pub op: u8,
    pub payload: Vec<u8>,
}

/// What a frame says.
#[verifier::ext_equal]
pub struct Message {
    pub op: u8,
    pub payload: Seq<u8>,
}

impl View for Frame {
    type V = Message;

    open spec fn view(&self) -> Message {
        Message { op: self.op, payload: self.payload@ }
    }
}

/// What each of some frames says.
pub open spec fn messages(frames: Seq<Frame>) -> Seq<Message> {
    Seq::new(frames.len(), |i: int| frames[i]@)
}

/// Whether the message's length fits the length field.
pub open spec fn fits(m: Message) -> bool {
    m.payload.len() + 1 <= MAX_LENGTH
}

/// The message's length as a machine number.
pub open spec fn size_of_frame(m: Message) -> usize {
    if m.payload.len() >= usize::MAX {
        usize::MAX
    } else {
        (m.payload.len() + 1) as usize
    }
}

/// The bytes of a message on the wire.
pub open spec fn wire(m: Message) -> Seq<u8> {
    let length = m.payload.len() + 1;
    seq![(length % 256) as u8, (length / 256) as u8, m.op] + m.payload
}

/// The length that the first two bytes announce.
pub open spec fn announced(bytes: Seq<u8>) -> int {
    bytes[0] as int + 256 * bytes[1] as int
}

/// Whether the bytes can be taken for a frame or for the beginning of one: an
/// announced length of zero leaves no room for the opcode.
pub open spec fn has_opcode(bytes: Seq<u8>) -> bool {
    bytes.len() >= 3 ==> announced(bytes) >= 1
}

/// What the bytes say as a frame. Bytes behind the frame do not matter.
pub open spec fn read_frame(bytes: Seq<u8>) -> Result<Message, Error> {
    if bytes.len() < 3 {
        Err(Error::FrameTruncated { expected: 3, got: bytes.len() as usize })
    } else if bytes.len() < 2 + announced(bytes) {
        Err(
            Error::FrameTruncated {
                expected: (2 + announced(bytes)) as usize,
                got: bytes.len() as usize,
            },
        )
    } else {
        Ok(Message { op: bytes[2], payload: bytes.subrange(3, 2 + announced(bytes)) })
    }
}

impl Frame {
    pub fn new(op: u8, payload: Vec<u8>) -> (res: Frame)
        ensures
            res@ == (Message { op, payload: payload@ }),
    {
        Frame { op, payload }
    }

    /// The acknowledgement: `01 00 00`.
    pub fn ack() -> (res: Frame)
        ensures
            res@ == (Message { op: OP_ACK, payload: Seq::empty() }),
    {
        Frame::new(OP_ACK, Vec::new())
    }

    /// The frame's bytes, or the length that does not fit.
    pub fn encode(&self) -> (res: Result<Vec<u8>, Error>)
        ensures
            match res {
                Ok(bytes) => fits(self@) && bytes@ == wire(self@),
                Err(e) => !fits(self@) && e == Error::FrameTooLarge(size_of_frame(self@)),
            },
    {
        let size: usize = self.payload.len();
        if size >= MAX_LENGTH {
            return Err(Error::FrameTooLarge(size.saturating_add(1)));
        }
        let length: usize = size + 1;
        let mut out: Vec<u8> = Vec::with_capacity(2 + length);
        out.push((length % 256) as u8);
        out.push((length / 256) as u8);
        out.push(self.op);
        out.extend_from_slice(self.payload.as_slice());
        assert(out@ =~= wire(self@));
        Ok(out)
    }

    /// Reads the frame at the start of `buf`.
    pub fn decode(buf: &[u8]) -> (res: Result<Frame, Error>)
        requires
            has_opcode(buf@),
        ensures
            match res {
                Ok(frame) => read_frame(buf@) == Ok::<Message, Error>(frame@),
                Err(e) => read_frame(buf@) == Err::<Message, Error>(e),
            },
    {
        let got: usize = buf.len();
        if got < 3 {
            return Err(Error::FrameTruncated { expected: 3, got });
        }
        let length: usize = buf[0] as usize + 256 * (buf[1] as usize);
        if got < 2 + length {
            return Err(Error::FrameTruncated { expected: 2 + length, got });
        }
        let op: u8 = buf[2];
        let payload: Vec<u8> = slice_to_vec(slice_subrange(buf, 3, 2 + length));
        Ok(Frame { op, payload })
    }

    pub fn is_ack(&self) -> (res: bool)
        ensures
            res == (self@.op == OP_ACK),
    {
        self.op == OP_ACK
    }
}

/// Whether a frame, or the beginning of one, can be read from `buf`.
pub fn can_decode(buf: &[u8]) -> (res: bool)
    ensures
        res == has_opcode(buf@),
{
    buf.len() < 3 || buf[0] != 0 || buf[1] != 0
}

/// A frame that fits is read back from its own bytes, whatever comes behind
/// them.
pub proof fn law_read_back(m: Message, behind: Seq<u8>)
    requires
        fits(m),
    ensures
        has_opcode(wire(m) + behind),
        read_frame(wire(m) + behind) == Ok::<Message, Error>(m),
{
    let bytes = wire(m) + behind;
    let length = m.payload.len() + 1;
    assert(length % 256 + 256 * (length / 256) == length);
    assert(announced(bytes) == length);
    assert(bytes.subrange(3, (2 + length) as int) =~= m.payload);
}

/// Bytes that hold a frame begin with exactly the bytes that the frame is
/// written as.
pub proof fn law_write_back(bytes: Seq<u8>)
    requires
        has_opcode(bytes),
        read_frame(bytes) is Ok,
    ensures
        fits(read_frame(bytes)->Ok_0),
        wire(read_frame(bytes)->Ok_0) == bytes.take(2 + announced(bytes)),
{
    let m = read_frame(bytes)->Ok_0;
    assert(m.payload.len() + 1 == announced(bytes));
    assert(wire(m) =~= bytes.take(2 + announced(bytes)));
}

/// A frame cut short is never taken for a whole one.
pub proof fn law_cut_short(m: Message, kept: int)
    requires
        fits(m),
        0 <= kept < wire(m).len(),
    ensures
        has_opcode(wire(m).take(kept)),
        read_frame(wire(m).take(kept)) is Err,
{
    let length = m.payload.len() + 1;
    assert(length % 256 + 256 * (length / 256) == length);
    let bytes = wire(m).take(kept);
    if kept >= 3 {
        assert(announced(bytes) == length);
    }
}

/// The bytes of a frame: its length, which counts the opcode and the payload, as
/// two bytes with the lower one first; the opcode; and the payload.
pub proof fn law_bytes_of_a_frame(m: Message)
    requires
        m.payload.len() <= 65534,
    ensures
        fits(m),
        wire(m).len() == m.payload.len() + 3,
        wire(m)[0] as int + 256 * (wire(m)[1] as int) == m.payload.len() + 1,
        wire(m)[2] == m.op,
        wire(m).skip(3) == m.payload,
{
    assert(wire(m).skip(3) =~= m.payload);
}

/// A payload of more than 65534 bytes does not fit, and is told by the length
/// that it would have.
pub proof fn law_what_does_not_fit(m: Message)
    requires
        m.payload.len() > 65534,
        m.payload.len() < usize::MAX,
    ensures
        !fits(m),
        size_of_frame(m) == m.payload.len() + 1,
{
}

/// Bytes that are too few for a frame tell how many are missing: three at the
/// least, and then two more than the length that the first two bytes announce.
pub proof fn law_what_is_missing(bytes: Seq<u8>, expected: int)
    requires
        bytes.len() < expected,
        bytes.len() <= usize::MAX,
        expected == (if bytes.len() < 3 {
            3
        } else {
            2 + bytes[0] + 256 * bytes[1]
        }),
    ensures
        read_frame(bytes) is Err,
        read_frame(bytes)->Err_0 is FrameTruncated,
        read_frame(bytes)->Err_0->FrameTruncated_expected == expected,
        read_frame(bytes)->Err_0->FrameTruncated_got == bytes.len(),
{
}

/// The only bytes that cannot be taken for a frame are those that announce a
/// length of zero.
pub proof fn law_what_can_be_read(bytes: Seq<u8>)
    ensures
        has_opcode(bytes) <==> bytes.len() < 3 || bytes[0] != 0 || bytes[1] != 0,
{
}

/// The bytes by which the device knows the kinds of frames.
pub proof fn law_opcodes()
    ensures
        OP_ACK == 0x00 && OP_NAK == 0x01 && OP_CONNECT == 0x02 && OP_DISCONNECT == 0x03,
        OP_CMD == 0x04 && OP_RESPONSE == 0x05 && OP_FILE_HEADER == 0x06,
        OP_FILE_CHUNK == 0x07 && OP_ABORT == 0x08,
{
}

} // verus!

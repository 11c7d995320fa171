//! What can go wrong between the host and the device.
use crate::text::{
    decimal, in_radix, law_hexadecimal_digits, pad_zeros, write_decimal, write_radix, zero_padded,
};
use vstd::prelude::*;

verus! {

/// Everything that a transfer, a frame or a reply can fail with.
#[allow(inconsistent_fields)]
#[derive(Clone, Debug, PartialEq, Eq)]
pub enum Error {
    /// A USB transfer failed.
    Usb(String),
    /// No device of the wanted kind is plugged in.
    NotFound,
    /// Another process or browser tab holds the device.
    Busy,
    /// A frame's length does not fit its length field.
    FrameTooLarge(usize),
    /// Fewer bytes came than a frame announces.
    FrameTruncated { expected: usize, got: usize },
    /// A frame with another opcode came than the one waited for.
    UnexpectedResponse { got: u8, wanted: u8 },
    /// A value could not be written as JSON.
    Json(String),
    /// An operating system call failed.
    Io(String),
    /// Anything else.
    Other(String),
}

/// A byte as two hexadecimal digits.
pub open spec fn hex_byte(b: u8) -> Seq<char> {
    zero_padded(in_radix(b as nat, 16), 2)
}

impl Error {
    /// The sentence that tells the user what went wrong.
    pub open spec fn sentence(self) -> Seq<char> {
        match self {
            Error::Usb(e) => "USB error: "@ + e@,
            Error::NotFound => "device not found (VID 0x1209 / PID 0x572a)"@,
            Error::Busy => "device already in use by another process or tab"@,
            Error::FrameTooLarge(n) => "frame too large: "@ + decimal(n as nat)
                + " bytes (max 65535 + header)"@,
            Error::FrameTruncated { expected, got } => "frame truncated: expected "@ + decimal(
                expected as nat,
            ) + " bytes, got "@ + decimal(got as nat),
            Error::UnexpectedResponse { got, wanted } => "unexpected response opcode 0x"@
                + hex_byte(got) + " (wanted 0x"@ + hex_byte(wanted) + ")"@,
            Error::Json(e) => "JSON encode error: "@ + e@,
            Error::Io(e) => "io: "@ + e@,
            Error::Other(e) => e@,
        }
    }

    /// The sentence that tells the user what went wrong.
    pub fn message(&self) -> (res: String)
        ensures
            res@ == self.sentence(),
    {
        let mut out: String = String::new();
        match self {
            Error::Usb(e) => {
                out.append("USB error: ");
                out.append(e.as_str());
            },
            Error::NotFound => {
                out.append("device not found (VID 0x1209 / PID 0x572a)");
            },
            Error::Busy => {
                out.append("device already in use by another process or tab");
            },
            Error::FrameTooLarge(n) => {
                out.append("frame too large: ");
                out.append(write_decimal(*n as u64).as_str());
                out.append(" bytes (max 65535 + header)");
            },
            Error::FrameTruncated { expected, got } => {
                out.append("frame truncated: expected ");
                out.append(write_decimal(*expected as u64).as_str());
                out.append(" bytes, got ");
                out.append(write_decimal(*got as u64).as_str());
            },
            Error::UnexpectedResponse { got, wanted } => {
                out.append("unexpected response opcode 0x");
                out.append(write_hex_byte(*got).as_str());
                out.append(" (wanted 0x");
                out.append(write_hex_byte(*wanted).as_str());
                out.append(")");
            },
            Error::Json(e) => {
                out.append("JSON encode error: ");
                out.append(e.as_str());
            },
            Error::Io(e) => {
                out.append("io: ");
                out.append(e.as_str());
            },
            Error::Other(e) => {
                out.append(e.as_str());
            },
        }
        assert(out@ =~= self.sentence());
        out
    }
}

fn write_hex_byte(b: u8) -> (res: String)
    ensures
        res@ == hex_byte(b),
{
    let digits: String = write_radix(b as u64, 16);
    pad_zeros(digits.as_str(), 2)
}

/// Whether an outcome is the failure with this text.
pub open spec fn fails_with<T>(res: Result<T, Error>, t: Seq<char>) -> bool {
    res is Err && res->Err_0 is Other && res->Err_0->Other_0@ == t
}

/// What the user reads of each failure.
pub proof fn law_what_is_said(e: Error)
    ensures
        e matches Error::Usb(t) ==> e.sentence() == "USB error: "@ + t@,
        e is NotFound ==> e.sentence() == "device not found (VID 0x1209 / PID 0x572a)"@,
        e is Busy ==> e.sentence() == "device already in use by another process or tab"@,
        e matches Error::FrameTooLarge(n) ==> e.sentence() == "frame too large: "@ + decimal(
            n as nat,
        ) + " bytes (max 65535 + header)"@,
        e matches Error::FrameTruncated { expected, got } ==> e.sentence()
            == "frame truncated: expected "@ + decimal(expected as nat) + " bytes, got "@ + decimal(
            got as nat,
        ),
        e matches Error::UnexpectedResponse { got, wanted } ==> e.sentence()
            == "unexpected response opcode 0x"@ + hex_byte(got) + " (wanted 0x"@ + hex_byte(wanted)
            + ")"@,
        e matches Error::Json(t) ==> e.sentence() == "JSON encode error: "@ + t@,
        e matches Error::Io(t) ==> e.sentence() == "io: "@ + t@,
        e matches Error::Other(t) ==> e.sentence() == t@,
{
}

/// A byte is always written with two hexadecimal digits, the higher one first.
pub proof fn law_two_hexadecimal_digits(high: nat, low: nat)
    requires
        high < 16,
        low < 16,
    ensures
        hex_byte((16 * high + low) as u8) == in_radix(high, 16) + in_radix(low, 16),
{
    let b = (16 * high + low) as u8;
    law_hexadecimal_digits(high, low);
    law_hexadecimal_digits(0, high);
    law_hexadecimal_digits(0, low);
    if high == 0 {
        assert(hex_byte(b) =~= in_radix(high, 16) + in_radix(low, 16));
    } else {
        assert(b as nat == 16 * high + low);
        assert(hex_byte(b) =~= in_radix(high, 16) + in_radix(low, 16));
    }
}

/// A failure with a text is told by that text alone.
pub proof fn law_failure_is_told_by_its_text<T>(res: Result<T, Error>, t: Seq<char>)
    requires
        fails_with(res, t),
    ensures
        res is Err,
        res->Err_0.sentence() == t,
{
}

} // verus!

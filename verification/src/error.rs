//! The kinds of failure that decoding can report.

use vstd::prelude::*;

verus! {

/// Why a frame or a header block was rejected.
#[derive(Clone, Copy, Debug, PartialEq, Eq, Structural)]
pub enum H2Error {
    /// The nine header octets are missing or disagree with the buffer.
    MalformedFrameHeader,
    /// The declared length cannot hold the layout that the flags select.
    PayloadLengthMismatch,
    /// A flag is set where the frame type forbids it.
    InvalidFlagCombination,
    /// A header block could not be decoded.
    CompressionError,
    /// A frame breaks a rule of the protocol, such as a fixed payload size.
    ProtocolViolation,
}

impl H2Error {
    /// The HTTP/2 error code that a GOAWAY for this failure carries.
    pub open spec fn spec_code(self) -> u32 {
        match self {
            H2Error::MalformedFrameHeader => 0x6,
            H2Error::PayloadLengthMismatch => 0x6,
            H2Error::InvalidFlagCombination => 0x1,
            H2Error::CompressionError => 0x9,
            H2Error::ProtocolViolation => 0x1,
        }
    }

    /// What the failure is, in words.
    pub open spec fn spec_message(self) -> &'static str {
        match self {
            H2Error::MalformedFrameHeader => "malformed frame header",
            H2Error::PayloadLengthMismatch => "payload length does not fit the frame layout",
            H2Error::InvalidFlagCombination => "invalid combination of flags",
            H2Error::CompressionError => "header block could not be decoded",
            H2Error::ProtocolViolation => "protocol violation",
        }
    }

    /// What the failure is, in words.
    pub fn message(&self) -> (r: &'static str)
        ensures
            r == self.spec_message(),
    {
        match self {
            H2Error::MalformedFrameHeader => "malformed frame header",
            H2Error::PayloadLengthMismatch => "payload length does not fit the frame layout",
            H2Error::InvalidFlagCombination => "invalid combination of flags",
            H2Error::CompressionError => "header block could not be decoded",
            H2Error::ProtocolViolation => "protocol violation",
        }
    }

    /// The HTTP/2 error code that a GOAWAY for this failure carries:
    /// FRAME_SIZE_ERROR, PROTOCOL_ERROR or COMPRESSION_ERROR.
    pub fn code(&self) -> (r: u32)
        ensures
            r == self.spec_code(),
    {
        match self {
            H2Error::MalformedFrameHeader => 0x6,
            H2Error::PayloadLengthMismatch => 0x6,
            H2Error::InvalidFlagCombination => 0x1,
            H2Error::CompressionError => 0x9,
            H2Error::ProtocolViolation => 0x1,
        }
    }
}

} // verus!

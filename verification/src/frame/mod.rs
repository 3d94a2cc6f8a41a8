//! The fixed header of nine octets that every HTTP/2 frame starts with
//! (RFC 7540, section 4.1), read and written in place.
//!
//! ```text
//!  +-----------------------------------------------+
//!  |                 Length (24)                   |
//!  +---------------+---------------+---------------+
//!  |   Type (8)    |   Flags (8)   |
//!  +-+-------------+---------------+-------------------------------+
//!  |R|                 Stream Identifier (31)                      |
//!  +=+=============================================================+
//!  |                   Frame Payload (0...)                      ...
//!  +---------------------------------------------------------------+
//! ```
//!
//! Numbers are big-endian. The reserved bit `R` is ignored when read and
//! written as zero.

use vstd::prelude::*;
use vstd::slice::slice_subrange;
use crate::buf::Buf;
use crate::error::H2Error;

pub mod block;
pub mod frame_types;
pub mod headers;

verus! {

/// The number of octets of the frame header.
pub const HEADER_LEN: usize = 9;

/// The largest payload length that the header can declare, `2^24 - 1`.
pub const MAX_LENGTH: u32 = 0xff_ffff;

/// The largest stream identifier, `2^31 - 1`.
pub const MAX_STREAM_ID: u32 = 0x7fff_ffff;

/// The number that three octets spell, the first being the most significant.
pub open spec fn spec_be24(b0: u8, b1: u8, b2: u8) -> int {
    b0 as int * 0x1_0000 + b1 as int * 0x100 + b2 as int
}

/// The number that four octets spell, the first being the most significant.
pub open spec fn spec_be32(b0: u8, b1: u8, b2: u8, b3: u8) -> int {
    b0 as int * 0x100_0000 + b1 as int * 0x1_0000 + b2 as int * 0x100 + b3 as int
}

/// The number that four octets spell without the highest bit.
pub open spec fn spec_be31(b0: u8, b1: u8, b2: u8, b3: u8) -> int {
    spec_be32((b0 % 128) as u8, b1, b2, b3)
}

/// The payload length that the header of `frame` declares.
pub open spec fn spec_length(frame: Seq<u8>) -> int
    recommends
        frame.len() >= 9,
{
    spec_be24(frame[0], frame[1], frame[2])
}

/// The frame type that the header of `frame` holds.
pub open spec fn spec_type(frame: Seq<u8>) -> u8
    recommends
        frame.len() >= 9,
{
    frame[3]
}

/// The flags that the header of `frame` holds.
pub open spec fn spec_flags(frame: Seq<u8>) -> u8
    recommends
        frame.len() >= 9,
{
    frame[4]
}

/// The stream identifier that the header of `frame` holds.
pub open spec fn spec_stream_id(frame: Seq<u8>) -> int
    recommends
        frame.len() >= 9,
{
    spec_be31(frame[5], frame[6], frame[7], frame[8])
}

/// Where the payload of `frame` ends in it: behind the declared length, or
/// at the end of the buffer where that comes first.
pub open spec fn spec_payload_end(frame: Seq<u8>) -> int
    recommends
        frame.len() >= 9,
{
    if 9 + spec_length(frame) <= frame.len() {
        9 + spec_length(frame)
    } else {
        frame.len() as int
    }
}

/// The payload of `frame`: the octets behind the header, as many as the
/// header declares and the buffer holds.
pub open spec fn spec_payload(frame: Seq<u8>) -> Seq<u8>
    recommends
        frame.len() >= 9,
{
    frame.subrange(9, spec_payload_end(frame))
}

/// The buffer holds the header and exactly the payload that it declares.
pub open spec fn is_complete(frame: Seq<u8>) -> bool {
    frame.len() >= 9 && frame.len() == 9 + spec_length(frame)
}

/// The payload of a complete frame has the length that its header declares.
pub proof fn lemma_payload_len(frame: Seq<u8>)
    requires
        is_complete(frame),
    ensures
        spec_payload(frame).len() == spec_length(frame),
        spec_payload(frame) == frame.skip(9),
{
    assert(spec_payload(frame) =~= frame.skip(9));
}

/// The four octets that a 32-bit number splits into spell it again.
pub proof fn lemma_be32_split(x: u32)
    ensures
        x / 0x100_0000 < 0x100,
        spec_be32(
            (x / 0x100_0000) as u8,
            ((x / 0x1_0000) % 0x100) as u8,
            ((x / 0x100) % 0x100) as u8,
            (x % 0x100) as u8,
        ) == x,
        x <= MAX_STREAM_ID ==> x / 0x100_0000 < 128,
{
    let v = x as int;
    let b0 = v / 0x100_0000;
    let b1 = (v / 0x1_0000) % 0x100;
    let b2 = (v / 0x100) % 0x100;
    let b3 = v % 0x100;
    assert(v == (v / 0x100) * 0x100 + b3);
    assert(v / 0x100 == (v / 0x100 / 0x100) * 0x100 + b2);
    assert(v / 0x100 / 0x100 == v / 0x1_0000);
    assert(v / 0x1_0000 == (v / 0x1_0000 / 0x100) * 0x100 + b1);
    assert(v / 0x1_0000 / 0x100 == b0);
}

/// The number of octets that the first frame in `buf` takes, header and
/// payload, when `buf` holds all of them.
pub open spec fn spec_frame_len(buf: Seq<u8>) -> Option<int> {
    if buf.len() >= 9 && buf.len() >= 9 + spec_length(buf) {
        Some(9 + spec_length(buf))
    } else {
        None
    }
}

/// The number of octets that the first frame in `buf` takes, or nothing
/// when `buf` does not hold the whole frame yet. A frame is not to be
/// looked at before it is whole.
pub fn frame_len(buf: &[u8]) -> (r: Option<usize>)
    ensures
        match spec_frame_len(buf@) {
            Some(n) => r == Some(n as usize) && 9 <= n <= buf@.len() && is_complete(
                buf@.take(n),
            ),
            None => r.is_none(),
        },
{
    if buf.len() < 9 {
        return None;
    }
    let declared: usize = ((buf[0] as u32) * 0x1_0000 + (buf[1] as u32) * 0x100 + (buf[2] as u32))
        as usize;
    if buf.len() - 9 < declared {
        return None;
    }
    assert(buf@.take(9 + declared)[0] == buf@[0]);
    assert(buf@.take(9 + declared)[1] == buf@[1]);
    assert(buf@.take(9 + declared)[2] == buf@[2]);
    Some(9 + declared)
}

/// The frame types of RFC 7540.
#[derive(Clone, Copy, Debug, PartialEq, Eq, Structural)]
pub enum FrameKind {
    Data,
    Headers,
    Priority,
    RstStream,
    Settings,
    PushPromise,
    Ping,
    GoAway,
    WindowUpdate,
    Continuation,
}

/// The frame type that the type octet `t` stands for. The octets from 0xA
/// on stand for none: a frame of an unknown type is to be ignored.
pub open spec fn spec_kind(t: u8) -> Option<FrameKind> {
    if t == 0 {
        Some(FrameKind::Data)
    } else if t == 1 {
        Some(FrameKind::Headers)
    } else if t == 2 {
        Some(FrameKind::Priority)
    } else if t == 3 {
        Some(FrameKind::RstStream)
    } else if t == 4 {
        Some(FrameKind::Settings)
    } else if t == 5 {
        Some(FrameKind::PushPromise)
    } else if t == 6 {
        Some(FrameKind::Ping)
    } else if t == 7 {
        Some(FrameKind::GoAway)
    } else if t == 8 {
        Some(FrameKind::WindowUpdate)
    } else if t == 9 {
        Some(FrameKind::Continuation)
    } else {
        None
    }
}

/// The frame type that the type octet `t` stands for, or nothing for an
/// unknown type.
pub fn frame_kind(t: u8) -> (r: Option<FrameKind>)
    ensures
        r == spec_kind(t),
{
    if t == 0 {
        Some(FrameKind::Data)
    } else if t == 1 {
        Some(FrameKind::Headers)
    } else if t == 2 {
        Some(FrameKind::Priority)
    } else if t == 3 {
        Some(FrameKind::RstStream)
    } else if t == 4 {
        Some(FrameKind::Settings)
    } else if t == 5 {
        Some(FrameKind::PushPromise)
    } else if t == 6 {
        Some(FrameKind::Ping)
    } else if t == 7 {
        Some(FrameKind::GoAway)
    } else if t == 8 {
        Some(FrameKind::WindowUpdate)
    } else if t == 9 {
        Some(FrameKind::Continuation)
    } else {
        None
    }
}

/// Reads a big-endian number of four octets at `at`.
pub fn getu32_from_be(buf: &[u8], at: usize) -> (r: u32)
    requires
        at + 4 <= buf@.len(),
    ensures
        r == spec_be32(buf@[at as int], buf@[at + 1], buf@[at + 2], buf@[at + 3]),
{
    (buf[at] as u32) * 0x100_0000 + (buf[at + 1] as u32) * 0x1_0000 + (buf[at + 2] as u32) * 0x100
        + (buf[at + 3] as u32)
}

/// Reads a big-endian number of four octets at `at`, without its highest
/// bit.
pub fn getu31_from_be(buf: &[u8], at: usize) -> (r: u32)
    requires
        at + 4 <= buf@.len(),
    ensures
        r == spec_be31(buf@[at as int], buf@[at + 1], buf@[at + 2], buf@[at + 3]),
        r <= MAX_STREAM_ID,
{
    ((buf[at] % 128) as u32) * 0x100_0000 + (buf[at + 1] as u32) * 0x1_0000 + (buf[at + 2] as u32)
        * 0x100 + (buf[at + 3] as u32)
}

/// Reads a big-endian number of two octets at `at`.
pub fn getu16_from_be(buf: &[u8], at: usize) -> (r: u16)
    requires
        at + 2 <= buf@.len(),
    ensures
        r == buf@[at as int] as int * 0x100 + buf@[at + 1] as int,
{
    (buf[at] as u16) * 0x100 + (buf[at + 1] as u16)
}

/// What every frame view can do: read and write the fields of the header
/// and reach the payload. The views differ in how they map out the payload.
pub trait Http2Frame<'buf>: Buf<'buf, u8> {
    /// The payload length that the header declares.
    fn get_length(&self) -> (r: u32)
        requires
            self.items().len() >= 9,
        ensures
            r == spec_length(self.items()),
            r <= MAX_LENGTH,
    {
        let buf = self.buf();
        (buf[0] as u32) * 0x1_0000 + (buf[1] as u32) * 0x100 + (buf[2] as u32)
    }

    /// The frame type.
    fn get_type(&self) -> (r: u8)
        requires
            self.items().len() >= 9,
        ensures
            r == spec_type(self.items()),
    {
        self.buf()[3]
    }

    /// The flags.
    fn get_flags(&self) -> (r: u8)
        requires
            self.items().len() >= 9,
        ensures
            r == spec_flags(self.items()),
    {
        self.buf()[4]
    }

    /// The stream identifier, without the reserved bit.
    fn get_s_identifier(&self) -> (r: u32)
        requires
            self.items().len() >= 9,
        ensures
            r == spec_stream_id(self.items()),
            r <= MAX_STREAM_ID,
    {
        getu31_from_be(self.buf(), 5)
    }

    /// The payload. In a complete frame it has the declared length.
    fn payload(&self) -> (r: &[u8])
        requires
            self.items().len() >= 9,
        ensures
            r@ == spec_payload(self.items()),
            is_complete(self.items()) ==> r@.len() == spec_length(self.items()),
    {
        let buf = self.buf();
        let declared: usize = self.get_length() as usize;
        let end: usize = if declared <= buf.len() - 9 {
            9 + declared
        } else {
            buf.len()
        };
        slice_subrange(buf, 9, end)
    }

    /// Tells whether the buffer holds the header and exactly the payload
    /// that it declares.
    fn check_complete(&self) -> (r: Result<(), H2Error>)
        ensures
            r.is_ok() <==> is_complete(self.items()),
            r.is_err() ==> r == Err::<(), H2Error>(H2Error::MalformedFrameHeader),
    {
        let buf = self.buf();
        if buf.len() < 9 {
            return Err(H2Error::MalformedFrameHeader);
        }
        let declared: usize = ((buf[0] as u32) * 0x1_0000 + (buf[1] as u32) * 0x100 + (
        buf[2] as u32)) as usize;
        if buf.len() - 9 == declared {
            Ok(())
        } else {
            Err(H2Error::MalformedFrameHeader)
        }
    }

    /// Writes the payload length. It has to fit 24 bits.
    fn set_length(&mut self, len: u32)
        requires
            old(self).items().len() >= 9,
            len <= MAX_LENGTH,
        ensures
            final(self).items().len() == old(self).items().len(),
            spec_length(final(self).items()) == len,
            forall|i: int| 3 <= i < old(self).items().len() ==> final(self).items()[i] == old(
                self,
            ).items()[i],
    {
        let buf = self.mut_buf();
        buf[0] = (len / 0x1_0000) as u8;
        buf[1] = ((len / 0x100) % 0x100) as u8;
        buf[2] = (len % 0x100) as u8;
    }

    /// Writes the frame type.
    fn set_type(&mut self, f_type: u8)
        requires
            old(self).items().len() >= 9,
        ensures
            final(self).items() == old(self).items().update(3, f_type),
    {
        let buf = self.mut_buf();
        buf[3] = f_type;
    }

    /// Writes the flags.
    fn set_flags(&mut self, f_flags: u8)
        requires
            old(self).items().len() >= 9,
        ensures
            final(self).items() == old(self).items().update(4, f_flags),
    {
        let buf = self.mut_buf();
        buf[4] = f_flags;
    }

    /// Writes the stream identifier, with the reserved bit zero. It has to
    /// fit 31 bits.
    fn set_s_identifier(&mut self, s_identifier: u32)
        requires
            old(self).items().len() >= 9,
            s_identifier <= MAX_STREAM_ID,
        ensures
            final(self).items().len() == old(self).items().len(),
            spec_stream_id(final(self).items()) == s_identifier,
            final(self).items()[5] < 128,
            forall|i: int|
                0 <= i < old(self).items().len() && !(5 <= i < 9) ==> final(self).items()[i]
                    == old(self).items()[i],
    {
        proof {
            lemma_be32_split(s_identifier);
        }
        let b0: u8 = (s_identifier / 0x100_0000) as u8;
        let b1: u8 = ((s_identifier / 0x1_0000) % 0x100) as u8;
        let b2: u8 = ((s_identifier / 0x100) % 0x100) as u8;
        let b3: u8 = (s_identifier % 0x100) as u8;
        assert(spec_be31(b0, b1, b2, b3) == s_identifier);
        let buf = self.mut_buf();
        buf[5] = b0;
        buf[6] = b1;
        buf[7] = b2;
        buf[8] = b3;
    }

    /// The octets behind the header, to write. What is written through the
    /// result is what stands behind the header afterwards.
    fn mut_payload(&mut self) -> (r: &mut [u8])
        requires
            old(self).items().len() >= 9,
        ensures
            r@ == old(self).items().skip(9),
            final(self).items() == old(self).items().take(9) + final(r)@,
    {
        let buf = self.mut_buf();
        let (head, tail) = buf.split_at_mut(9);
        assert(head@ =~= old(self).items().take(9));
        assert(tail@ =~= old(self).items().skip(9));
        tail
    }
}

/// The view of a frame whose type is not looked at yet. It is what the
/// octets from the peer are read with first, to find the type.
pub struct GenericFrame<'buf> {
    pub buf: &'buf mut [u8],
}

impl<'buf> Buf<'buf, u8> for GenericFrame<'buf> {
    open spec fn items(&self) -> Seq<u8> {
        self.buf@
    }

    fn buf(&self) -> (r: &[u8]) {
        &*self.buf
    }

    fn mut_buf(&mut self) -> (r: &mut [u8]) {
        &mut *self.buf
    }

    fn point_to(buf: &'buf mut [u8]) -> (r: Self) {
        GenericFrame { buf }
    }
}

impl<'buf> Http2Frame<'buf> for GenericFrame<'buf> {

}

} // verus!

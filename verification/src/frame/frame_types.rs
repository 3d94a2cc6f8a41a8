//! The frame types of RFC 7540, section 6. Each is a view of the same
//! buffer as the generic frame and maps out the payload of its type.

use vstd::prelude::*;
use vstd::slice::slice_subrange;
use vstd::std_specs::convert::FromSpecImpl;
use crate::buf::Buf;
use crate::error::H2Error;
use crate::frame::frame_kind;
use crate::frame::getu16_from_be;
use crate::frame::is_complete;
use crate::frame::spec_kind;
use crate::frame::spec_type;
use crate::frame::FrameKind;
use crate::frame::getu31_from_be;
use crate::frame::getu32_from_be;
use crate::frame::spec_be31;
use crate::frame::spec_be32;
use crate::frame::spec_flags;
use crate::frame::spec_length;
use crate::frame::spec_payload;
use crate::frame::spec_payload_end;
use crate::frame::GenericFrame;
use crate::frame::Http2Frame;

verus! {

/// The flag of a HEADERS or DATA frame that ends the stream.
pub const END_STREAM: u8 = 0x1;

/// The flag of a SETTINGS or PING frame that acknowledges one.
pub const ACK: u8 = 0x1;

/// The flag that ends a header block.
pub const END_HEADERS: u8 = 0x4;

/// The flag that says the payload starts with a pad length.
pub const PADDED: u8 = 0x8;

/// The flag of a HEADERS frame that says priority fields are present.
pub const PRIORITY: u8 = 0x20;

/// Where the part of a payload that may be padded lies.
pub struct PadLayout {
    /// The pad length, when the frame is padded.
    pub padding: Option<u8>,
    /// Where the fixed fields behind the pad length start, in the payload.
    pub fields: int,
    /// Where the body behind the fixed fields starts.
    pub start: int,
    /// Where the body ends.
    pub end: int,
}

/// The layout of the payload of `frame`, which holds `extra` octets of
/// fixed fields before its body and a pad length before those if `PADDED`
/// is set. The padding lies at the end of the declared payload; the body
/// ends before it, or at the end of the buffer where that comes first.
///
/// There is no layout when the buffer is shorter than a header, when the
/// fixed fields are missing, and when the declared length cannot hold the
/// fixed fields and the padding.
pub open spec fn spec_pad_layout(frame: Seq<u8>, extra: int) -> Result<PadLayout, H2Error> {
    if frame.len() < 9 {
        Err(H2Error::MalformedFrameHeader)
    } else {
        let payload = spec_payload(frame);
        let padded = spec_flags(frame) & PADDED != 0;
        let fields: int = if padded {
            1
        } else {
            0
        };
        if payload.len() < fields + extra {
            Err(H2Error::PayloadLengthMismatch)
        } else {
            let pad: int = if padded {
                payload[0] as int
            } else {
                0
            };
            if spec_length(frame) < fields + extra + pad {
                Err(H2Error::PayloadLengthMismatch)
            } else {
                Ok(
                    PadLayout {
                        padding: if padded {
                            Some(payload[0])
                        } else {
                            None
                        },
                        fields,
                        start: fields + extra,
                        end: if spec_length(frame) - pad < payload.len() {
                            spec_length(frame) - pad
                        } else {
                            payload.len() as int
                        },
                    },
                )
            }
        }
    }
}

/// Finds the layout of a payload that may be padded: the pad length, and the
/// places in `frame` where the fixed fields start, where the body starts and
/// where it ends.
pub fn pad_layout(frame: &[u8], extra: usize) -> (r: Result<(Option<u8>, usize, usize, usize), H2Error>)
    requires
        extra <= 5,
    ensures
        match r {
            Ok((padding, fields, start, end)) => spec_pad_layout(frame@, extra as int) == Ok::<
                PadLayout,
                H2Error,
            >(
                PadLayout {
                    padding,
                    fields: fields - 9,
                    start: start - 9,
                    end: end - 9,
                },
            ) && 9 <= fields <= start <= end <= frame@.len() && end <= spec_payload_end(frame@)
                && start == fields + extra,
            Err(e) => spec_pad_layout(frame@, extra as int) == Err::<PadLayout, H2Error>(e),
        },
{
    if frame.len() < 9 {
        return Err(H2Error::MalformedFrameHeader);
    }
    let declared: usize = ((frame[0] as u32) * 0x1_0000 + (frame[1] as u32) * 0x100 + (
    frame[2] as u32)) as usize;
    let held: usize = if declared <= frame.len() - 9 {
        declared
    } else {
        frame.len() - 9
    };
    let padded: bool = frame[4] & PADDED != 0;
    let fields: usize = if padded {
        1
    } else {
        0
    };
    if held < fields + extra {
        return Err(H2Error::PayloadLengthMismatch);
    }
    let pad: usize = if padded {
        frame[9] as usize
    } else {
        0
    };
    if declared < fields + extra + pad {
        return Err(H2Error::PayloadLengthMismatch);
    }
    let end: usize = if declared - pad < held {
        declared - pad
    } else {
        held
    };
    let padding: Option<u8> = if padded {
        Some(frame[9])
    } else {
        None
    };
    Ok((padding, 9 + fields, 9 + fields + extra, 9 + end))
}

/// What a HEADERS frame holds.
#[derive(Debug)]
pub struct HeaderData<'obj> {
    /// The pad length, if the frame is padded.
    pub padding: Option<u8>,
    /// Whether the dependency is exclusive, the stream depended on, and the
    /// weight, if the frame has priority fields.
    pub priority_data: Option<(bool, u32, u8)>,
    /// The header block fragment.
    pub header_block_fragment: &'obj [u8],
}

/// The number of octets of priority fields that the flags announce.
pub open spec fn spec_priority_len(frame: Seq<u8>) -> int
    recommends
        frame.len() >= 9,
{
    if spec_flags(frame) & PRIORITY != 0 {
        5
    } else {
        0
    }
}

/// The priority fields that stand at `at` in `payload`: the exclusive bit,
/// the stream depended on and the weight.
pub open spec fn spec_priority_at(payload: Seq<u8>, at: int) -> (bool, u32, u8)
    recommends
        0 <= at,
        at + 5 <= payload.len(),
{
    (
        payload[at] >= 128,
        spec_be31(payload[at], payload[at + 1], payload[at + 2], payload[at + 3]) as u32,
        payload[at + 4],
    )
}

/// The view of a HEADERS frame (type 0x1).
///
/// ```text
///  +---------------+
///  |Pad Length? (8)|
///  +-+-------------+-----------------------------------------------+
///  |E|                 Stream Dependency? (31)                     |
///  +-+-------------+-----------------------------------------------+
///  |  Weight? (8)  |
///  +-+-------------+-----------------------------------------------+
///  |                   Header Block Fragment (*)                 ...
///  +---------------------------------------------------------------+
///  |                           Padding (*)                       ...
///  +---------------------------------------------------------------+
/// ```
pub struct HeadersFrame<'buf> {
    pub buf: &'buf mut [u8],
}

impl<'buf> Buf<'buf, u8> for HeadersFrame<'buf> {
    open spec fn items(&self) -> Seq<u8> {
        self.buf@
    }

    fn buf(&self) -> (r: &[u8]) {
        &*self.buf
    }

    fn mut_buf(&mut self) -> (r: &mut [u8]) {
        &mut *self.buf
    }

    fn point_to(buf: &'buf mut [u8]) -> (r: Self) {
        HeadersFrame { buf }
    }
}

impl<'buf> Http2Frame<'buf> for HeadersFrame<'buf> {

}

impl<'buf> From<GenericFrame<'buf>> for HeadersFrame<'buf> {
    /// The view of the same buffer as a frame of this type.
    fn from(frame: GenericFrame<'buf>) -> (r: Self)
        ensures
            r.items() == frame.items(),
    {
        HeadersFrame { buf: frame.buf }
    }
}

impl<'buf> FromSpecImpl<GenericFrame<'buf>> for HeadersFrame<'buf> {
    open spec fn obeys_from_spec() -> bool {
        false
    }

    open spec fn from_spec(frame: GenericFrame<'buf>) -> Self {
        HeadersFrame { buf: frame.buf }
    }
}

impl<'buf> HeadersFrame<'buf> {
    /// The pad length, the priority fields and the header block fragment,
    /// as the flags `PADDED` and `PRIORITY` lay them out.
    pub fn get_header_data(&self) -> (r: Result<HeaderData<'_>, H2Error>)
        ensures
            match spec_pad_layout(self.items(), spec_priority_len(self.items())) {
                Ok(layout) => r.is_ok() && r.unwrap().padding == layout.padding
                    && r.unwrap().priority_data == (if spec_flags(self.items()) & PRIORITY != 0 {
                    Some(spec_priority_at(spec_payload(self.items()), layout.fields))
                } else {
                    None
                }) && r.unwrap().header_block_fragment@ == spec_payload(self.items()).subrange(
                    layout.start,
                    layout.end,
                ),
                Err(e) => r.is_err() && r.unwrap_err() == e,
            },
    {
        let buf = self.buf();
        if buf.len() < 9 {
            return Err(H2Error::MalformedFrameHeader);
        }
        let has_priority: bool = buf[4] & PRIORITY != 0;
        let extra: usize = if has_priority {
            5
        } else {
            0
        };
        let (padding, fields, start, end) = match pad_layout(buf, extra) {
            Ok(layout) => layout,
            Err(e) => {
                return Err(e);
            },
        };
        let priority_data: Option<(bool, u32, u8)> = if has_priority {
            Some((buf[fields] >= 128, getu31_from_be(buf, fields), buf[fields + 4]))
        } else {
            None
        };
        let fragment = slice_subrange(buf, start, end);
        assert(fragment@ =~= spec_payload(self.items()).subrange(start - 9, end - 9));
        Ok(HeaderData { padding, priority_data, header_block_fragment: fragment })
    }
}

/// The view of a DATA frame (type 0x0): a pad length if `PADDED` is set,
/// the data, and the padding.
pub struct DataFrame<'buf> {
    pub buf: &'buf mut [u8],
}

impl<'buf> Buf<'buf, u8> for DataFrame<'buf> {
    open spec fn items(&self) -> Seq<u8> {
        self.buf@
    }

    fn buf(&self) -> (r: &[u8]) {
        &*self.buf
    }

    fn mut_buf(&mut self) -> (r: &mut [u8]) {
        &mut *self.buf
    }

    fn point_to(buf: &'buf mut [u8]) -> (r: Self) {
        DataFrame { buf }
    }
}

impl<'buf> Http2Frame<'buf> for DataFrame<'buf> {

}

impl<'buf> From<GenericFrame<'buf>> for DataFrame<'buf> {
    /// The view of the same buffer as a frame of this type.
    fn from(frame: GenericFrame<'buf>) -> (r: Self)
        ensures
            r.items() == frame.items(),
    {
        DataFrame { buf: frame.buf }
    }
}

impl<'buf> FromSpecImpl<GenericFrame<'buf>> for DataFrame<'buf> {
    open spec fn obeys_from_spec() -> bool {
        false
    }

    open spec fn from_spec(frame: GenericFrame<'buf>) -> Self {
        DataFrame { buf: frame.buf }
    }
}

impl<'buf> DataFrame<'buf> {
    /// The data, without pad length and padding. Fails when the pad length
    /// is missing and when it is not below the declared length.
    pub fn get_data(&self) -> (r: Result<&[u8], H2Error>)
        ensures
            match spec_pad_layout(self.items(), 0) {
                Ok(layout) => r.is_ok() && r.unwrap()@ == spec_payload(self.items()).subrange(
                    layout.start,
                    layout.end,
                ),
                Err(e) => r.is_err() && r.unwrap_err() == e,
            },
    {
        let buf = self.buf();
        let (_padding, _fields, start, end) = match pad_layout(buf, 0) {
            Ok(layout) => layout,
            Err(e) => {
                return Err(e);
            },
        };
        let data = slice_subrange(buf, start, end);
        assert(data@ =~= spec_payload(self.items()).subrange(start - 9, end - 9));
        Ok(data)
    }
}

/// The payload of `frame`, when the buffer holds a header and the payload
/// has exactly `size` octets. A buffer shorter than a header is malformed;
/// a payload of another size breaks the protocol.
pub open spec fn spec_sized_payload(frame: Seq<u8>, size: int) -> Result<Seq<u8>, H2Error> {
    if frame.len() < 9 {
        Err(H2Error::MalformedFrameHeader)
    } else if spec_payload(frame).len() != size {
        Err(H2Error::ProtocolViolation)
    } else {
        Ok(spec_payload(frame))
    }
}

/// Tells whether the payload of `frame` has exactly `size` octets.
pub fn check_payload_size(frame: &[u8], size: usize) -> (r: Result<(), H2Error>)
    ensures
        match spec_sized_payload(frame@, size as int) {
            Ok(payload) => r.is_ok() && frame@.len() >= 9 + size && payload == frame@.subrange(
                9,
                9 + size,
            ),
            Err(e) => r == Err::<(), H2Error>(e),
        },
{
    if frame.len() < 9 {
        return Err(H2Error::MalformedFrameHeader);
    }
    let declared: usize = ((frame[0] as u32) * 0x1_0000 + (frame[1] as u32) * 0x100 + (
    frame[2] as u32)) as usize;
    let held: usize = if declared <= frame.len() - 9 {
        declared
    } else {
        frame.len() - 9
    };
    if held != size {
        return Err(H2Error::ProtocolViolation);
    }
    Ok(())
}

/// The view of a PRIORITY frame (type 0x2): the exclusive bit and the
/// stream depended on in four octets, and the weight in one.
pub struct PriorityFrame<'buf> {
    pub buf: &'buf mut [u8],
}

impl<'buf> Buf<'buf, u8> for PriorityFrame<'buf> {
    open spec fn items(&self) -> Seq<u8> {
        self.buf@
    }

    fn buf(&self) -> (r: &[u8]) {
        &*self.buf
    }

    fn mut_buf(&mut self) -> (r: &mut [u8]) {
        &mut *self.buf
    }

    fn point_to(buf: &'buf mut [u8]) -> (r: Self) {
        PriorityFrame { buf }
    }
}

impl<'buf> Http2Frame<'buf> for PriorityFrame<'buf> {

}

impl<'buf> From<GenericFrame<'buf>> for PriorityFrame<'buf> {
    /// The view of the same buffer as a frame of this type.
    fn from(frame: GenericFrame<'buf>) -> (r: Self)
        ensures
            r.items() == frame.items(),
    {
        PriorityFrame { buf: frame.buf }
    }
}

impl<'buf> FromSpecImpl<GenericFrame<'buf>> for PriorityFrame<'buf> {
    open spec fn obeys_from_spec() -> bool {
        false
    }

    open spec fn from_spec(frame: GenericFrame<'buf>) -> Self {
        PriorityFrame { buf: frame.buf }
    }
}

impl<'buf> PriorityFrame<'buf> {
    /// Whether the dependency is exclusive, the stream depended on, and
    /// the weight. Fails when the payload is not five octets.
    pub fn get_priority_info(&self) -> (r: Result<(bool, u32, u8), H2Error>)
        ensures
            match spec_sized_payload(self.items(), 5) {
                Ok(payload) => r == Ok::<(bool, u32, u8), H2Error>(spec_priority_at(payload, 0)),
                Err(e) => r == Err::<(bool, u32, u8), H2Error>(e),
            },
    {
        let buf = self.buf();
        match check_payload_size(buf, 5) {
            Ok(()) => Ok((buf[9] >= 128, getu31_from_be(buf, 9), buf[13])),
            Err(e) => Err(e),
        }
    }
}

/// The view of a RST_STREAM frame (type 0x3): an error code of four
/// octets.
pub struct RstStreamFrame<'buf> {
    pub buf: &'buf mut [u8],
}

impl<'buf> Buf<'buf, u8> for RstStreamFrame<'buf> {
    open spec fn items(&self) -> Seq<u8> {
        self.buf@
    }

    fn buf(&self) -> (r: &[u8]) {
        &*self.buf
    }

    fn mut_buf(&mut self) -> (r: &mut [u8]) {
        &mut *self.buf
    }

    fn point_to(buf: &'buf mut [u8]) -> (r: Self) {
        RstStreamFrame { buf }
    }
}

impl<'buf> Http2Frame<'buf> for RstStreamFrame<'buf> {

}

impl<'buf> From<GenericFrame<'buf>> for RstStreamFrame<'buf> {
    /// The view of the same buffer as a frame of this type.
    fn from(frame: GenericFrame<'buf>) -> (r: Self)
        ensures
            r.items() == frame.items(),
    {
        RstStreamFrame { buf: frame.buf }
    }
}

impl<'buf> FromSpecImpl<GenericFrame<'buf>> for RstStreamFrame<'buf> {
    open spec fn obeys_from_spec() -> bool {
        false
    }

    open spec fn from_spec(frame: GenericFrame<'buf>) -> Self {
        RstStreamFrame { buf: frame.buf }
    }
}

impl<'buf> RstStreamFrame<'buf> {
    /// The error code. Fails when the payload is not four octets.
    pub fn get_error_code(&self) -> (r: Result<u32, H2Error>)
        ensures
            match spec_sized_payload(self.items(), 4) {
                Ok(payload) => r == Ok::<u32, H2Error>(
                    spec_be32(payload[0], payload[1], payload[2], payload[3]) as u32,
                ),
                Err(e) => r == Err::<u32, H2Error>(e),
            },
    {
        let buf = self.buf();
        match check_payload_size(buf, 4) {
            Ok(()) => Ok(getu32_from_be(buf, 9)),
            Err(e) => Err(e),
        }
    }
}

/// The settings that `payload` holds: records of six octets, an identifier
/// of two and a value of four.
pub open spec fn spec_settings(payload: Seq<u8>) -> Seq<(u16, u32)> {
    Seq::new(
        (payload.len() / 6) as nat,
        |i: int|
            (
                (payload[6 * i] as int * 0x100 + payload[6 * i + 1] as int) as u16,
                spec_be32(
                    payload[6 * i + 2],
                    payload[6 * i + 3],
                    payload[6 * i + 4],
                    payload[6 * i + 5],
                ) as u32,
            ),
    )
}

/// The settings of a SETTINGS frame, to be read one after the other.
/// Reading does not change the frame: the sequence can be had again.
#[derive(Debug)]
pub struct Settings<'obj> {
    s_buf: &'obj [u8],
}

impl<'obj> Settings<'obj> {
    #[verifier::type_invariant]
    spec fn inv(self) -> bool {
        self.s_buf@.len() % 6 == 0
    }

    /// The settings that are still to come.
    pub closed spec fn remaining(&self) -> Seq<(u16, u32)> {
        spec_settings(self.s_buf@)
    }

    /// Reads the next setting, if there is one: its identifier and its
    /// value.
    pub fn next(&mut self) -> (r: Option<(u16, u32)>)
        ensures
            old(self).remaining().len() > 0 ==> r == Some(old(self).remaining()[0]) && final(self).remaining() == old(self).remaining().skip(1),
            old(self).remaining().len() == 0 ==> r.is_none() && final(self).remaining().len() == 0,
    {
        proof {
            use_type_invariant(&*self);
        }
        let buf: &'obj [u8] = self.s_buf;
        if buf.len() == 0 {
            None
        } else {
            let id = getu16_from_be(buf, 0);
            let value = getu32_from_be(buf, 2);
            self.s_buf = slice_subrange(buf, 6, buf.len());
            proof {
                assert(self.remaining() =~= old(self).remaining().skip(1)) by {
                    assert forall|i: int| 0 <= i < self.remaining().len() implies self.remaining()[i]
                        == old(self).remaining()[i + 1] by {
                        assert(self.s_buf@[6 * i] == buf@[6 * (i + 1)]);
                        assert(self.s_buf@[6 * i + 1] == buf@[6 * (i + 1) + 1]);
                        assert(self.s_buf@[6 * i + 2] == buf@[6 * (i + 1) + 2]);
                        assert(self.s_buf@[6 * i + 3] == buf@[6 * (i + 1) + 3]);
                        assert(self.s_buf@[6 * i + 4] == buf@[6 * (i + 1) + 4]);
                        assert(self.s_buf@[6 * i + 5] == buf@[6 * (i + 1) + 5]);
                    }
                }
            }
            Some((id, value))
        }
    }
}

/// The settings of `frame`, if its payload is well formed: empty when `ACK`
/// is set, and a whole number of records.
pub open spec fn spec_settings_of(frame: Seq<u8>) -> Result<Seq<(u16, u32)>, H2Error> {
    if frame.len() < 9 {
        Err(H2Error::MalformedFrameHeader)
    } else if spec_flags(frame) & ACK != 0 && spec_payload(frame).len() != 0 {
        Err(H2Error::InvalidFlagCombination)
    } else if spec_payload(frame).len() % 6 != 0 {
        Err(H2Error::PayloadLengthMismatch)
    } else {
        Ok(spec_settings(spec_payload(frame)))
    }
}

/// The view of a SETTINGS frame (type 0x4): records of an identifier of
/// two octets and a value of four.
pub struct SettingsFrame<'buf> {
    pub buf: &'buf mut [u8],
}

impl<'buf> Buf<'buf, u8> for SettingsFrame<'buf> {
    open spec fn items(&self) -> Seq<u8> {
        self.buf@
    }

    fn buf(&self) -> (r: &[u8]) {
        &*self.buf
    }

    fn mut_buf(&mut self) -> (r: &mut [u8]) {
        &mut *self.buf
    }

    fn point_to(buf: &'buf mut [u8]) -> (r: Self) {
        SettingsFrame { buf }
    }
}

impl<'buf> Http2Frame<'buf> for SettingsFrame<'buf> {

}

impl<'buf> From<GenericFrame<'buf>> for SettingsFrame<'buf> {
    /// The view of the same buffer as a frame of this type.
    fn from(frame: GenericFrame<'buf>) -> (r: Self)
        ensures
            r.items() == frame.items(),
    {
        SettingsFrame { buf: frame.buf }
    }
}

impl<'buf> FromSpecImpl<GenericFrame<'buf>> for SettingsFrame<'buf> {
    open spec fn obeys_from_spec() -> bool {
        false
    }

    open spec fn from_spec(frame: GenericFrame<'buf>) -> Self {
        SettingsFrame { buf: frame.buf }
    }
}

impl<'buf> SettingsFrame<'buf> {
    /// The settings of the frame, in their order. Fails when `ACK` is set
    /// on a payload that is not empty, and when the payload is not a whole
    /// number of records.
    pub fn get_settings_paramaters(&self) -> (r: Result<Settings<'_>, H2Error>)
        ensures
            match spec_settings_of(self.items()) {
                Ok(settings) => r.is_ok() && r.unwrap().remaining() == settings,
                Err(e) => r.is_err() && r.unwrap_err() == e,
            },
    {
        let buf = self.buf();
        if buf.len() < 9 {
            return Err(H2Error::MalformedFrameHeader);
        }
        let payload = self.payload();
        if buf[4] & ACK != 0 && payload.len() != 0 {
            return Err(H2Error::InvalidFlagCombination);
        }
        if payload.len() % 6 != 0 {
            return Err(H2Error::PayloadLengthMismatch);
        }
        Ok(Settings { s_buf: payload })
    }
}

/// The view of a PUSH_PROMISE frame (type 0x5): a pad length if `PADDED`
/// is set, the promised stream in four octets, a header block fragment,
/// and the padding.
pub struct PushPromiseFrame<'buf> {
    pub buf: &'buf mut [u8],
}

impl<'buf> Buf<'buf, u8> for PushPromiseFrame<'buf> {
    open spec fn items(&self) -> Seq<u8> {
        self.buf@
    }

    fn buf(&self) -> (r: &[u8]) {
        &*self.buf
    }

    fn mut_buf(&mut self) -> (r: &mut [u8]) {
        &mut *self.buf
    }

    fn point_to(buf: &'buf mut [u8]) -> (r: Self) {
        PushPromiseFrame { buf }
    }
}

impl<'buf> Http2Frame<'buf> for PushPromiseFrame<'buf> {

}

impl<'buf> From<GenericFrame<'buf>> for PushPromiseFrame<'buf> {
    /// The view of the same buffer as a frame of this type.
    fn from(frame: GenericFrame<'buf>) -> (r: Self)
        ensures
            r.items() == frame.items(),
    {
        PushPromiseFrame { buf: frame.buf }
    }
}

impl<'buf> FromSpecImpl<GenericFrame<'buf>> for PushPromiseFrame<'buf> {
    open spec fn obeys_from_spec() -> bool {
        false
    }

    open spec fn from_spec(frame: GenericFrame<'buf>) -> Self {
        PushPromiseFrame { buf: frame.buf }
    }
}

impl<'buf> PushPromiseFrame<'buf> {
    /// The promised stream and the header block fragment. Fails when the
    /// fixed fields are missing and when the declared length cannot hold
    /// them and the padding.
    pub fn get_push_data(&self) -> (r: Result<(u32, &[u8]), H2Error>)
        ensures
            match spec_pad_layout(self.items(), 4) {
                Ok(layout) => r.is_ok() && r.unwrap().0 == spec_be31(
                    spec_payload(self.items())[layout.fields],
                    spec_payload(self.items())[layout.fields + 1],
                    spec_payload(self.items())[layout.fields + 2],
                    spec_payload(self.items())[layout.fields + 3],
                ) && r.unwrap().1@ == spec_payload(self.items()).subrange(layout.start, layout.end),
                Err(e) => r.is_err() && r.unwrap_err() == e,
            },
    {
        let buf = self.buf();
        let (_padding, fields, start, end) = match pad_layout(buf, 4) {
            Ok(layout) => layout,
            Err(e) => {
                return Err(e);
            },
        };
        let id = getu31_from_be(buf, fields);
        let fragment = slice_subrange(buf, start, end);
        assert(fragment@ =~= spec_payload(self.items()).subrange(start - 9, end - 9));
        Ok((id, fragment))
    }
}

/// The view of a PING frame (type 0x6): eight octets that mean nothing to
/// the receiver.
pub struct PingFrame<'buf> {
    pub buf: &'buf mut [u8],
}

impl<'buf> Buf<'buf, u8> for PingFrame<'buf> {
    open spec fn items(&self) -> Seq<u8> {
        self.buf@
    }

    fn buf(&self) -> (r: &[u8]) {
        &*self.buf
    }

    fn mut_buf(&mut self) -> (r: &mut [u8]) {
        &mut *self.buf
    }

    fn point_to(buf: &'buf mut [u8]) -> (r: Self) {
        PingFrame { buf }
    }
}

impl<'buf> Http2Frame<'buf> for PingFrame<'buf> {

}

impl<'buf> From<GenericFrame<'buf>> for PingFrame<'buf> {
    /// The view of the same buffer as a frame of this type.
    fn from(frame: GenericFrame<'buf>) -> (r: Self)
        ensures
            r.items() == frame.items(),
    {
        PingFrame { buf: frame.buf }
    }
}

impl<'buf> FromSpecImpl<GenericFrame<'buf>> for PingFrame<'buf> {
    open spec fn obeys_from_spec() -> bool {
        false
    }

    open spec fn from_spec(frame: GenericFrame<'buf>) -> Self {
        PingFrame { buf: frame.buf }
    }
}

impl<'buf> PingFrame<'buf> {
    /// The eight octets. Fails when the payload is not eight octets.
    pub fn get_ping_data(&self) -> (r: Result<&[u8], H2Error>)
        ensures
            match spec_sized_payload(self.items(), 8) {
                Ok(payload) => r.is_ok() && r.unwrap()@ == payload,
                Err(e) => r.is_err() && r.unwrap_err() == e,
            },
    {
        let buf = self.buf();
        match check_payload_size(buf, 8) {
            Ok(()) => Ok(slice_subrange(buf, 9, 17)),
            Err(e) => Err(e),
        }
    }
}

/// The view of a GOAWAY frame (type 0x7): the last stream in four octets,
/// an error code in four, and debug data.
pub struct GoAwayFrame<'buf> {
    pub buf: &'buf mut [u8],
}

impl<'buf> Buf<'buf, u8> for GoAwayFrame<'buf> {
    open spec fn items(&self) -> Seq<u8> {
        self.buf@
    }

    fn buf(&self) -> (r: &[u8]) {
        &*self.buf
    }

    fn mut_buf(&mut self) -> (r: &mut [u8]) {
        &mut *self.buf
    }

    fn point_to(buf: &'buf mut [u8]) -> (r: Self) {
        GoAwayFrame { buf }
    }
}

impl<'buf> Http2Frame<'buf> for GoAwayFrame<'buf> {

}

impl<'buf> From<GenericFrame<'buf>> for GoAwayFrame<'buf> {
    /// The view of the same buffer as a frame of this type.
    fn from(frame: GenericFrame<'buf>) -> (r: Self)
        ensures
            r.items() == frame.items(),
    {
        GoAwayFrame { buf: frame.buf }
    }
}

impl<'buf> FromSpecImpl<GenericFrame<'buf>> for GoAwayFrame<'buf> {
    open spec fn obeys_from_spec() -> bool {
        false
    }

    open spec fn from_spec(frame: GenericFrame<'buf>) -> Self {
        GoAwayFrame { buf: frame.buf }
    }
}

impl<'buf> GoAwayFrame<'buf> {
    /// The last stream, the error code and the debug data. Fails when the
    /// payload is shorter than the eight octets of the fixed fields.
    pub fn get_go_away_info(&self) -> (r: Result<(u32, u32, &[u8]), H2Error>)
        ensures
            self.items().len() < 9 ==> r.is_err() && r.unwrap_err() == H2Error::MalformedFrameHeader,
            self.items().len() >= 9 && spec_payload(self.items()).len() < 8 ==> r.is_err()
                && r.unwrap_err() == H2Error::PayloadLengthMismatch,
            self.items().len() >= 9 && spec_payload(self.items()).len() >= 8 ==> r.is_ok()
                && r.unwrap().0 == spec_be31(
                spec_payload(self.items())[0],
                spec_payload(self.items())[1],
                spec_payload(self.items())[2],
                spec_payload(self.items())[3],
            ) && r.unwrap().1 == spec_be32(
                spec_payload(self.items())[4],
                spec_payload(self.items())[5],
                spec_payload(self.items())[6],
                spec_payload(self.items())[7],
            ) && r.unwrap().2@ == spec_payload(self.items()).skip(8),
    {
        let buf = self.buf();
        if buf.len() < 9 {
            return Err(H2Error::MalformedFrameHeader);
        }
        let payload = self.payload();
        if payload.len() < 8 {
            return Err(H2Error::PayloadLengthMismatch);
        }
        let last_stream_id = getu31_from_be(payload, 0);
        let error_code = getu32_from_be(payload, 4);
        let debug = slice_subrange(payload, 8, payload.len());
        assert(debug@ =~= spec_payload(self.items()).skip(8));
        Ok((last_stream_id, error_code, debug))
    }
}

/// The view of a WINDOW_UPDATE frame (type 0x8): a reserved bit and an
/// increment of 31 bits.
pub struct WindowUpdateFrame<'buf> {
    pub buf: &'buf mut [u8],
}

impl<'buf> Buf<'buf, u8> for WindowUpdateFrame<'buf> {
    open spec fn items(&self) -> Seq<u8> {
        self.buf@
    }

    fn buf(&self) -> (r: &[u8]) {
        &*self.buf
    }

    fn mut_buf(&mut self) -> (r: &mut [u8]) {
        &mut *self.buf
    }

    fn point_to(buf: &'buf mut [u8]) -> (r: Self) {
        WindowUpdateFrame { buf }
    }
}

impl<'buf> Http2Frame<'buf> for WindowUpdateFrame<'buf> {

}

impl<'buf> From<GenericFrame<'buf>> for WindowUpdateFrame<'buf> {
    /// The view of the same buffer as a frame of this type.
    fn from(frame: GenericFrame<'buf>) -> (r: Self)
        ensures
            r.items() == frame.items(),
    {
        WindowUpdateFrame { buf: frame.buf }
    }
}

impl<'buf> FromSpecImpl<GenericFrame<'buf>> for WindowUpdateFrame<'buf> {
    open spec fn obeys_from_spec() -> bool {
        false
    }

    open spec fn from_spec(frame: GenericFrame<'buf>) -> Self {
        WindowUpdateFrame { buf: frame.buf }
    }
}

impl<'buf> WindowUpdateFrame<'buf> {
    /// The window size increment. Fails when the payload is not four
    /// octets and when the increment is 0.
    pub fn get_window_update(&self) -> (r: Result<u32, H2Error>)
        ensures
            match spec_sized_payload(self.items(), 4) {
                Ok(payload) => if spec_be31(payload[0], payload[1], payload[2], payload[3]) == 0 {
                    r == Err::<u32, H2Error>(H2Error::ProtocolViolation)
                } else {
                    r == Ok::<u32, H2Error>(
                        spec_be31(payload[0], payload[1], payload[2], payload[3]) as u32,
                    )
                },
                Err(e) => r == Err::<u32, H2Error>(e),
            },
    {
        let buf = self.buf();
        match check_payload_size(buf, 4) {
            Ok(()) => {
                let increment = getu31_from_be(buf, 9);
                if increment == 0 {
                    Err(H2Error::ProtocolViolation)
                } else {
                    Ok(increment)
                }
            },
            Err(e) => Err(e),
        }
    }
}

/// The view of a CONTINUATION frame (type 0x9): the payload is a header
/// block fragment.
pub struct ContinuationFrame<'buf> {
    pub buf: &'buf mut [u8],
}

impl<'buf> Buf<'buf, u8> for ContinuationFrame<'buf> {
    open spec fn items(&self) -> Seq<u8> {
        self.buf@
    }

    fn buf(&self) -> (r: &[u8]) {
        &*self.buf
    }

    fn mut_buf(&mut self) -> (r: &mut [u8]) {
        &mut *self.buf
    }

    fn point_to(buf: &'buf mut [u8]) -> (r: Self) {
        ContinuationFrame { buf }
    }
}

impl<'buf> Http2Frame<'buf> for ContinuationFrame<'buf> {

}

impl<'buf> From<GenericFrame<'buf>> for ContinuationFrame<'buf> {
    /// The view of the same buffer as a frame of this type.
    fn from(frame: GenericFrame<'buf>) -> (r: Self)
        ensures
            r.items() == frame.items(),
    {
        ContinuationFrame { buf: frame.buf }
    }
}

impl<'buf> FromSpecImpl<GenericFrame<'buf>> for ContinuationFrame<'buf> {
    open spec fn obeys_from_spec() -> bool {
        false
    }

    open spec fn from_spec(frame: GenericFrame<'buf>) -> Self {
        ContinuationFrame { buf: frame.buf }
    }
}

impl<'buf> ContinuationFrame<'buf> {
    /// The header block fragment: the whole payload.
    pub fn get_contuniation(&self) -> (r: &[u8])
        requires
            self.items().len() >= 9,
        ensures
            r@ == spec_payload(self.items()),
    {
        self.payload()
    }
}

/// A frame under the view of its type.
pub enum TypedFrame<'buf> {
    Data(DataFrame<'buf>),
    Headers(HeadersFrame<'buf>),
    Priority(PriorityFrame<'buf>),
    RstStream(RstStreamFrame<'buf>),
    Settings(SettingsFrame<'buf>),
    PushPromise(PushPromiseFrame<'buf>),
    Ping(PingFrame<'buf>),
    GoAway(GoAwayFrame<'buf>),
    WindowUpdate(WindowUpdateFrame<'buf>),
    Continuation(ContinuationFrame<'buf>),
}

impl<'buf> TypedFrame<'buf> {
    /// The frame type of the view.
    pub open spec fn spec_kind(&self) -> FrameKind {
        match self {
            TypedFrame::Data(_) => FrameKind::Data,
            TypedFrame::Headers(_) => FrameKind::Headers,
            TypedFrame::Priority(_) => FrameKind::Priority,
            TypedFrame::RstStream(_) => FrameKind::RstStream,
            TypedFrame::Settings(_) => FrameKind::Settings,
            TypedFrame::PushPromise(_) => FrameKind::PushPromise,
            TypedFrame::Ping(_) => FrameKind::Ping,
            TypedFrame::GoAway(_) => FrameKind::GoAway,
            TypedFrame::WindowUpdate(_) => FrameKind::WindowUpdate,
            TypedFrame::Continuation(_) => FrameKind::Continuation,
        }
    }

    /// What the buffer under the view holds.
    pub open spec fn items(&self) -> Seq<u8> {
        match self {
            TypedFrame::Data(f) => f.items(),
            TypedFrame::Headers(f) => f.items(),
            TypedFrame::Priority(f) => f.items(),
            TypedFrame::RstStream(f) => f.items(),
            TypedFrame::Settings(f) => f.items(),
            TypedFrame::PushPromise(f) => f.items(),
            TypedFrame::Ping(f) => f.items(),
            TypedFrame::GoAway(f) => f.items(),
            TypedFrame::WindowUpdate(f) => f.items(),
            TypedFrame::Continuation(f) => f.items(),
        }
    }

    /// The frame type of the view.
    pub fn kind(&self) -> (r: FrameKind)
        ensures
            r == self.spec_kind(),
    {
        match self {
            TypedFrame::Data(_) => FrameKind::Data,
            TypedFrame::Headers(_) => FrameKind::Headers,
            TypedFrame::Priority(_) => FrameKind::Priority,
            TypedFrame::RstStream(_) => FrameKind::RstStream,
            TypedFrame::Settings(_) => FrameKind::Settings,
            TypedFrame::PushPromise(_) => FrameKind::PushPromise,
            TypedFrame::Ping(_) => FrameKind::Ping,
            TypedFrame::GoAway(_) => FrameKind::GoAway,
            TypedFrame::WindowUpdate(_) => FrameKind::WindowUpdate,
            TypedFrame::Continuation(_) => FrameKind::Continuation,
        }
    }
}

/// Gives the view of the type that the header of `buf` names, for a buffer
/// that holds exactly one frame.
///
/// Fails when the buffer does not hold a header and exactly the payload
/// that the header declares. Gives nothing for a frame of an unknown type,
/// which is to be ignored.
pub fn parse_frame<'buf>(buf: &'buf mut [u8]) -> (r: Result<Option<TypedFrame<'buf>>, H2Error>)
    ensures
        !is_complete(old(buf)@) ==> r.is_err() && r->Err_0 == H2Error::MalformedFrameHeader,
        is_complete(old(buf)@) ==> r.is_ok() && match spec_kind(spec_type(old(buf)@)) {
            Some(kind) => r->Ok_0.is_some() && r->Ok_0->Some_0.spec_kind() == kind
                && r->Ok_0->Some_0.items() == old(buf)@,
            None => r->Ok_0.is_none(),
        },
{
    let frame = GenericFrame::point_to(buf);
    match frame.check_complete() {
        Ok(()) => {},
        Err(e) => {
            return Err(e);
        },
    }
    let kind = match frame_kind(frame.get_type()) {
        Some(kind) => kind,
        None => {
            return Ok(None);
        },
    };
    let typed = match kind {
        FrameKind::Data => TypedFrame::Data(DataFrame::from(frame)),
        FrameKind::Headers => TypedFrame::Headers(HeadersFrame::from(frame)),
        FrameKind::Priority => TypedFrame::Priority(PriorityFrame::from(frame)),
        FrameKind::RstStream => TypedFrame::RstStream(RstStreamFrame::from(frame)),
        FrameKind::Settings => TypedFrame::Settings(SettingsFrame::from(frame)),
        FrameKind::PushPromise => TypedFrame::PushPromise(PushPromiseFrame::from(frame)),
        FrameKind::Ping => TypedFrame::Ping(PingFrame::from(frame)),
        FrameKind::GoAway => TypedFrame::GoAway(GoAwayFrame::from(frame)),
        FrameKind::WindowUpdate => TypedFrame::WindowUpdate(WindowUpdateFrame::from(frame)),
        FrameKind::Continuation => TypedFrame::Continuation(ContinuationFrame::from(frame)),
    };
    Ok(Some(typed))
}

} // verus!

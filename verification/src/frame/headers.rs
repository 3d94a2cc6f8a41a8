//! The fields of a HEADERS payload as plain values, for callers that have
//! no use for a view.

use vstd::prelude::*;
use vstd::slice::slice_subrange;
use crate::buf::Buf;
use crate::error::H2Error;
use crate::frame::frame_types::pad_layout;
use crate::frame::frame_types::spec_pad_layout;
use crate::frame::frame_types::spec_priority_at;
use crate::frame::frame_types::spec_priority_len;
use crate::frame::frame_types::PRIORITY;
use crate::frame::getu31_from_be;
use crate::frame::spec_flags;
use crate::frame::spec_payload;
use crate::frame::GenericFrame;

verus! {

/// The fields of a HEADERS frame, each present or not as the flags say.
#[derive(Debug)]
pub struct HeaderFrame<'a> {
    pub pad_l: Option<u8>,
    pub exclusive: Option<bool>,
    pub stream_dep: Option<u32>,
    pub weight: Option<u8>,
    pub header_frag: &'a [u8],
}

impl<'a> HeaderFrame<'a> {
    /// Reads the fields of a HEADERS frame from its generic view. Fails
    /// when the fields that the flags announce are missing and when the
    /// declared length cannot hold them and the padding.
    pub fn new(frame: &'a GenericFrame<'_>) -> (r: Result<HeaderFrame<'a>, H2Error>)
        ensures
            match spec_pad_layout(frame.items(), spec_priority_len(frame.items())) {
                Ok(layout) => r.is_ok() && r.unwrap().pad_l == layout.padding && (if spec_flags(
                    frame.items(),
                ) & PRIORITY != 0 {
                    let p = spec_priority_at(spec_payload(frame.items()), layout.fields);
                    r.unwrap().exclusive == Some(p.0) && r.unwrap().stream_dep == Some(p.1)
                        && r.unwrap().weight == Some(p.2)
                } else {
                    r.unwrap().exclusive.is_none() && r.unwrap().stream_dep.is_none()
                        && r.unwrap().weight.is_none()
                }) && r.unwrap().header_frag@ == spec_payload(frame.items()).subrange(
                    layout.start,
                    layout.end,
                ),
                Err(e) => r.is_err() && r.unwrap_err() == e,
            },
    {
        let buf = frame.buf();
        if buf.len() < 9 {
            return Err(H2Error::MalformedFrameHeader);
        }
        let has_priority: bool = buf[4] & PRIORITY != 0;
        let extra: usize = if has_priority {
            5
        } else {
            0
        };
        let (padding, fields, start, end) = match pad_layout(buf, extra) {
            Ok(layout) => layout,
            Err(e) => {
                return Err(e);
            },
        };
        let fragment = slice_subrange(buf, start, end);
        assert(fragment@ =~= spec_payload(frame.items()).subrange(start - 9, end - 9));
        if has_priority {
            Ok(
                HeaderFrame {
                    pad_l: padding,
                    exclusive: Some(buf[fields] >= 128),
                    stream_dep: Some(getu31_from_be(buf, fields)),
                    weight: Some(buf[fields + 4]),
                    header_frag: fragment,
                },
            )
        } else {
            Ok(
                HeaderFrame {
                    pad_l: padding,
                    exclusive: None,
                    stream_dep: None,
                    weight: None,
                    header_frag: fragment,
                },
            )
        }
    }
}

/// The fields of a HEADERS payload that has both a pad length and
/// priority fields.
#[derive(Debug)]
pub struct Header<'a> {
    pub pad_l: u8,
    pub exclusive: bool,
    pub stream_dep: u32,
    pub weight: u8,
    pub header_frag: &'a [u8],
}

impl<'a> Header<'a> {
    /// Reads the fields from a payload that starts with a pad length and
    /// priority fields. Fails when the payload is shorter than these six
    /// octets and the padding.
    pub fn new(buf: &'a [u8]) -> (r: Result<Header<'a>, H2Error>)
        ensures
            buf@.len() >= 6 && buf@.len() >= 6 + buf@[0] ==> r.is_ok() && r.unwrap().pad_l == buf@[0]
                && (r.unwrap().exclusive, r.unwrap().stream_dep, r.unwrap().weight)
                == spec_priority_at(buf@, 1) && r.unwrap().header_frag@ == buf@.subrange(
                6,
                buf@.len() - buf@[0],
            ),
            !(buf@.len() >= 6 && buf@.len() >= 6 + buf@[0]) ==> r.is_err() && r.unwrap_err()
                == H2Error::PayloadLengthMismatch,
    {
        if buf.len() < 6 {
            return Err(H2Error::PayloadLengthMismatch);
        }
        let pad: usize = buf[0] as usize;
        if buf.len() - 6 < pad {
            return Err(H2Error::PayloadLengthMismatch);
        }
        Ok(
            Header {
                pad_l: buf[0],
                exclusive: buf[1] >= 128,
                stream_dep: getu31_from_be(buf, 1),
                weight: buf[5],
                header_frag: slice_subrange(buf, 6, buf.len() - pad),
            },
        )
    }
}

} // verus!

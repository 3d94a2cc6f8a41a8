use h2wire::buf::Buf;
use h2wire::error::H2Error;
use h2wire::frame::block::BlockAssembler;
use h2wire::frame::frame_types::{
    parse_frame, ContinuationFrame, DataFrame, GoAwayFrame, HeadersFrame, PingFrame,
    PriorityFrame, PushPromiseFrame, RstStreamFrame, SettingsFrame, TypedFrame, WindowUpdateFrame,
};
use h2wire::frame::headers::{Header, HeaderFrame};
use h2wire::frame::{frame_kind, frame_len, FrameKind, GenericFrame, Http2Frame};

// test frame with invalid payload and length
// (just to check if fields are read and written properly)
const TST_FRAME: &[u8] = &[0x00, 0x00, 0xEE, 0x01, 0x25, 0x00, 0x00, 0x00, 0x01, 0x80];

const FRAGMENT: &[u8] = &[
    0x82, 0x41, 0x8A, 0xA0, 0xE4, 0x1D, 0x13, 0x9D, 0x09, 0xB8, 0xF0, 0x1E, 0x07, 0x87, 0x84, 0x40,
    0x85, 0xAE, 0xC1, 0xCD, 0x48, 0xFF, 0x86, 0xA8, 0xEB, 0x10, 0x64, 0x9C, 0xBF, 0x58, 0x86, 0xA8,
    0xEB, 0x10, 0x64, 0x9C, 0xBF, 0x40, 0x92, 0xB6, 0xB9, 0xAC, 0x1C, 0x85, 0x58, 0xD5,
];

fn with_fragment(head: &[u8]) -> Vec<u8> {
    let mut v = head.to_vec();
    v.extend_from_slice(FRAGMENT);
    v
}

#[test]
fn read_frame_test() {
    let mut buf: Vec<u8> = Vec::with_capacity(TST_FRAME.len());

    for byte in TST_FRAME {
        buf.push(*byte);
    }

    let frame = GenericFrame::point_to(&mut buf);

    assert_eq!(frame.get_length(), 238);
    assert_eq!(frame.get_type(), 1);
    assert_eq!(frame.get_flags(), 0x25);
    assert_eq!(frame.get_s_identifier(), 1);
    assert_eq!(frame.payload()[..], TST_FRAME[9..]);
}

#[test]
fn write_frame_test() {
    let mut buf: Vec<u8> = vec![0; 10];

    let mut frame = GenericFrame::point_to(&mut buf);

    frame.set_length(238);
    frame.set_type(1);
    frame.set_flags(0x25);
    frame.set_s_identifier(1);
    frame.mut_payload()[0] = 0x80;

    assert_eq!(frame.buf()[..], TST_FRAME[..]);
}

#[test]
fn read_headers_test() {
    // TEST different PADDED/PRIORITY flag combinations
    //================================
    // Neither
    //================================
    let mut buf = with_fragment(&[0x00, 0x00, 0xEE, 0x01, 0x00, 0x00, 0x00, 0x00, 0x01]);

    let bc = buf.clone();

    let headers: HeadersFrame = GenericFrame::point_to(&mut buf).into();

    let h_data = headers.get_header_data().unwrap();

    assert_eq!(None, h_data.padding);
    assert_eq!(None, h_data.priority_data);
    assert_eq!(h_data.header_block_fragment[..], bc[9..]);

    //================================
    // PaddedOnly
    //================================
    let mut buf = with_fragment(&[0x00, 0x00, 0xEE, 0x01, 0x08, 0x00, 0x00, 0x00, 0x01, 0x0F]);

    let bc = buf.clone();

    let headers: HeadersFrame = GenericFrame::point_to(&mut buf).into();

    let h_data = headers.get_header_data().unwrap();

    assert_eq!(Some(15), h_data.padding);
    assert_eq!(None, h_data.priority_data);
    assert_eq!(h_data.header_block_fragment[..], bc[10..]);

    //================================
    // PriorityOnly
    //================================
    let mut buf = with_fragment(&[
        0x00, 0x00, 0xEE, 0x01, 0x20, 0x00, 0x00, 0x00, 0x01, 0x80, 0x00, 0x00, 0x1F, 0xFF,
    ]);

    let bc = buf.clone();

    let headers: HeadersFrame = GenericFrame::point_to(&mut buf).into();

    let h_data = headers.get_header_data().unwrap();

    assert_eq!(None, h_data.padding);
    assert_eq!(Some((true, 31, 255)), h_data.priority_data);
    assert_eq!(h_data.header_block_fragment[..], bc[14..]);

    //================================
    // Both
    //================================
    let mut buf = with_fragment(&[
        0x00, 0x00, 0xEE, 0x01, 0x2D, 0x00, 0x00, 0x00, 0x01, 0x0F, 0x80, 0x00, 0x00, 0x1F, 0xFF,
    ]);

    let bc = buf.clone();

    let headers: HeadersFrame = GenericFrame::point_to(&mut buf).into();

    let h_data = headers.get_header_data().unwrap();

    assert_eq!(Some(15), h_data.padding);
    assert_eq!(Some((true, 31, 255)), h_data.priority_data);
    assert_eq!(h_data.header_block_fragment[..], bc[15..]);
}

#[test]
fn data_frame_tests() {
    let mut buf = vec![0x00, 0x00, 0x04, 0x00, 0x08, 0x00, 0x00, 0x00, 0x01, 0x01, 0xFF, 0xFF, 0x10];

    let bc = buf.clone();

    let data: DataFrame = GenericFrame::point_to(&mut buf).into();

    assert_eq!(data.get_data().unwrap()[..], bc[10..12]);
}

#[test]
fn priority_frame_tests() {
    let mut buf = vec![0x00, 0x00, 0x05, 0x02, 0x08, 0x00, 0x00, 0x00, 0x01, 0x80, 0x00, 0x00, 0x01, 0x05];

    let priority: PriorityFrame = GenericFrame::point_to(&mut buf).into();

    assert_eq!(priority.get_priority_info().unwrap(), (true, 1, 5));
}

#[test]
fn rst_stream_frame_tests() {
    let mut buf = vec![0x00, 0x00, 0x04, 0x03, 0x00, 0x00, 0x00, 0x00, 0x01, 0x00, 0x00, 0x00, 0x05];

    let priority: RstStreamFrame = GenericFrame::point_to(&mut buf).into();

    assert_eq!(priority.get_error_code().unwrap(), 5);
}

#[test]
fn settings_frame_tests() {
    let mut buf = vec![
        0x00, 0x00, 0x0C, 0x04, 0x00, 0x00, 0x00, 0x00, 0x00, 0x00, 0x01, 0x00, 0x00, 0x00, 0x03,
        0x00, 0x02, 0x00, 0x00, 0x00, 0x05,
    ];

    let sframe: SettingsFrame = GenericFrame::point_to(&mut buf).into();

    let mut params = sframe.get_settings_paramaters().unwrap();

    assert_eq!(params.next(), Some((1, 3)));
    assert_eq!(params.next(), Some((2, 5)));
    assert_eq!(params.next(), None);

    // the sequence can be had again from the start
    let mut again = sframe.get_settings_paramaters().unwrap();
    assert_eq!(again.next(), Some((1, 3)));
}

#[test]
fn push_promise_frame_tests() {
    let mut buf = vec![
        0x00, 0x00, 0x0C, 0x05, 0x00, 0x00, 0x00, 0x00, 0x02, 0x00, 0x00, 0x00, 0x07, 0x00, 0x03,
        0x00, 0x02, 0x00, 0x00, 0x00, 0x05,
    ];

    let bc = buf.clone();

    let push_frame: PushPromiseFrame = GenericFrame::point_to(&mut buf).into();

    assert_eq!(push_frame.get_push_data().unwrap(), (7, &bc[13..]));
}

#[test]
fn ping_frame_tests() {
    let mut buf = vec![
        0x00, 0x00, 0x08, 0x06, 0x00, 0x00, 0x00, 0x00, 0x00, 0x00, 0x03, 0x00, 0x02, 0x00, 0x00,
        0x00, 0x05,
    ];

    let bc = buf.clone();

    let ping_frame: PingFrame = GenericFrame::point_to(&mut buf).into();

    assert_eq!(ping_frame.get_ping_data().unwrap(), &bc[9..]);
}

#[test]
fn go_away_frame_tests() {
    let mut buf = vec![
        0x00, 0x00, 0x0C, 0x07, 0x00, 0x00, 0x00, 0x00, 0x00, 0x00, 0x00, 0x00, 0x02, 0x00, 0x00,
        0x00, 0x05, 0x30, 0x33,
    ];

    let go_away_frame: GoAwayFrame = GenericFrame::point_to(&mut buf).into();

    assert_eq!(go_away_frame.get_go_away_info().unwrap(), (2, 5, &b"03"[..]));
}

#[test]
fn window_update_frame_tests() {
    let mut buf = vec![0x00, 0x00, 0x0C, 0x08, 0x00, 0x00, 0x00, 0x00, 0x00, 0x00, 0x00, 0x01, 0x90];

    let window_update_frame: WindowUpdateFrame = GenericFrame::point_to(&mut buf).into();

    assert_eq!(window_update_frame.get_window_update().unwrap(), 400);
}

#[test]
fn continuation_frame_tests() {
    let mut buf = vec![0x00, 0x00, 0x0C, 0x09, 0x00, 0x00, 0x00, 0x00, 0x01, 0x00, 0x00, 0x01, 0x90, 0xFF];

    let bc = buf.clone();

    let continuation: ContinuationFrame = GenericFrame::point_to(&mut buf).into();

    assert_eq!(continuation.get_contuniation(), &bc[9..]);
}

#[test]
fn new_header_unpadded() {
    let tst_frame: &[u8] = &[
        0x00, 0x00, 0xEE, 0x01, 0x25, 0x00, 0x00, 0x00, 0x01, 0x80, 0x00, 0x00, 0x00, 0xFF, 0x82,
        0x41, 0x8A, 0xA0, 0xE4, 0x1D, 0x13, 0x9D, 0x09, 0xB8, 0xF0, 0x1E, 0x07, 0x87, 0x84, 0x40,
        0x85, 0xAE, 0xC1, 0xCD, 0x48, 0xFF, 0x86, 0xA8, 0xEB, 0x10, 0x64, 0x9C, 0xBF, 0x58, 0x86,
        0xA8, 0xEB, 0x10, 0x64, 0x9C, 0xBF, 0x40, 0x92, 0xB6, 0xB9, 0xAC, 0x1C, 0x85, 0x58, 0xD5,
        0x20, 0xA4, 0xB6, 0xC2, 0xAD, 0x61, 0x7B, 0x5A, 0x54, 0x25, 0x1F, 0x01, 0x31, 0x7A, 0xD1,
        0xD0, 0x7F, 0x66, 0xA2, 0x81, 0xB0, 0xDA, 0xE0, 0x53, 0xFA, 0xFC, 0x08, 0x7E, 0xD4, 0xCE,
        0x6A, 0xAD, 0xF2, 0xA7, 0x97, 0x9C, 0x89, 0xC6, 0xBF, 0xB5, 0x21, 0xAE, 0xBA, 0x0B, 0xC8,
        0xB1, 0xE6, 0x32, 0x58, 0x6D, 0x97, 0x57, 0x65, 0xC5, 0x3F, 0xAC, 0xD8, 0xF7, 0xE8, 0xCF,
        0xF4, 0xA5, 0x06, 0xEA, 0x55, 0x31, 0x14, 0x9D, 0x4F, 0xFD, 0xA9, 0x7A, 0x7B, 0x0F, 0x49,
        0x58, 0x6D, 0x95, 0xC0, 0xB8, 0x9D, 0x79, 0xB5, 0xC2, 0xD3, 0x2A, 0x6E, 0x1C, 0xA3, 0xB0,
        0xCC, 0x36, 0xCB, 0xAB, 0xB2, 0xE7, 0x53, 0xB8, 0x49, 0x7C, 0xA5, 0x89, 0xD3, 0x4D, 0x1F,
        0x43, 0xAE, 0xBA, 0x0C, 0x41, 0xA4, 0xC7, 0xA9, 0x8F, 0x33, 0xA6, 0x9A, 0x3F, 0xDF, 0x9A,
        0x68, 0xFA, 0x1D, 0x75, 0xD0, 0x62, 0x0D, 0x26, 0x3D, 0x4C, 0x79, 0xA6, 0x8F, 0xBE, 0xD0,
        0x01, 0x77, 0xFE, 0x8D, 0x48, 0xE6, 0x2B, 0x1E, 0x0B, 0x1D, 0x7F, 0x5F, 0x2C, 0x7C, 0xFD,
        0xF6, 0x80, 0x0B, 0xBD, 0x50, 0x92, 0x9B, 0xD9, 0xAB, 0xFA, 0x52, 0x42, 0xCB, 0x40, 0xD2,
        0x5F, 0xA5, 0x11, 0x21, 0x27, 0xFA, 0x52, 0x3B, 0x3F, 0x51, 0x8B, 0x2D, 0x4B, 0x70, 0xDD,
        0xF4, 0x5A, 0xBE, 0xFB, 0x40, 0x05, 0xDE,
    ];

    let mut owned = tst_frame.to_vec();
    let frame = GenericFrame::point_to(&mut owned);

    let header = HeaderFrame::new(&frame).unwrap();

    assert_eq!(header.pad_l, None);
    assert_eq!(header.exclusive, Some(true));
    assert_eq!(header.stream_dep, Some(0));
    assert_eq!(header.weight, Some(255));
    assert_eq!(header.header_frag, &tst_frame[14..]);
}

#[test]
fn complete_frame_has_the_declared_payload() {
    let mut buf = vec![0x00, 0x00, 0x03, 0x00, 0x00, 0x00, 0x00, 0x00, 0x01, 0xA, 0xB, 0xC];
    let frame = GenericFrame::point_to(&mut buf);
    assert_eq!(frame.check_complete(), Ok(()));
    assert_eq!(frame.payload().len() as u32, frame.get_length());
    assert_eq!(frame.payload(), &[0xA, 0xB, 0xC]);

    // what follows the declared payload is no part of it
    let mut buf = vec![0x00, 0x00, 0x02, 0x00, 0x00, 0x00, 0x00, 0x00, 0x01, 0xA, 0xB, 0xC];
    let frame = GenericFrame::point_to(&mut buf);
    assert_eq!(frame.check_complete(), Err(H2Error::MalformedFrameHeader));
    assert_eq!(frame.payload(), &[0xA, 0xB]);

    // a buffer that ends early
    let mut buf = vec![0x00, 0x00, 0x04, 0x00, 0x00, 0x00, 0x00, 0x00, 0x01, 0xA, 0xB, 0xC];
    let frame = GenericFrame::point_to(&mut buf);
    assert_eq!(frame.check_complete(), Err(H2Error::MalformedFrameHeader));

    // less than a header
    let mut buf = vec![0x00, 0x00, 0x00];
    let frame = GenericFrame::point_to(&mut buf);
    assert_eq!(frame.check_complete(), Err(H2Error::MalformedFrameHeader));
}

#[test]
fn reserved_bit_is_ignored_on_read() {
    let mut buf = vec![0x00, 0x00, 0x00, 0x00, 0x00, 0xFF, 0xFF, 0xFF, 0xFF];
    let frame = GenericFrame::point_to(&mut buf);
    assert_eq!(frame.get_s_identifier(), 0x7FFF_FFFF);
}

#[test]
fn header_fields_are_written_big_endian() {
    let mut buf = vec![0xEEu8; 11];
    let mut frame = GenericFrame::point_to(&mut buf);
    frame.set_length(0x01_02_03);
    frame.set_type(9);
    frame.set_flags(4);
    frame.set_s_identifier(0x7A_0B_0C_0D);
    assert_eq!(frame.get_length(), 0x01_02_03);
    assert_eq!(frame.get_s_identifier(), 0x7A_0B_0C_0D);
    assert_eq!(buf, vec![1, 2, 3, 9, 4, 0x7A, 0x0B, 0x0C, 0x0D, 0xEE, 0xEE]);
}

#[test]
fn padded_headers_strip_the_padding_of_a_complete_frame() {
    // length 7: pad length 2, fragment of 4, padding of 2
    let mut buf = vec![0x00, 0x00, 0x07, 0x01, 0x08, 0x00, 0x00, 0x00, 0x01, 0x02, 1, 2, 3, 4, 0, 0];
    let headers: HeadersFrame = GenericFrame::point_to(&mut buf).into();
    let data = headers.get_header_data().unwrap();
    assert_eq!(data.padding, Some(2));
    assert_eq!(data.header_block_fragment, &[1, 2, 3, 4]);
}

#[test]
fn padded_layout_errors() {
    // pad length as large as the payload
    let mut buf = vec![0x00, 0x00, 0x03, 0x00, 0x08, 0x00, 0x00, 0x00, 0x01, 0x03, 0xFF, 0xFF];
    let data: DataFrame = GenericFrame::point_to(&mut buf).into();
    assert_eq!(data.get_data(), Err(H2Error::PayloadLengthMismatch));

    // padded, with no pad length
    let mut buf = vec![0x00, 0x00, 0x00, 0x00, 0x08, 0x00, 0x00, 0x00, 0x01];
    let data: DataFrame = GenericFrame::point_to(&mut buf).into();
    assert_eq!(data.get_data(), Err(H2Error::PayloadLengthMismatch));

    // priority fields cut short
    let mut buf = vec![0x00, 0x00, 0x03, 0x01, 0x20, 0x00, 0x00, 0x00, 0x01, 0x80, 0x00, 0x00];
    let headers: HeadersFrame = GenericFrame::point_to(&mut buf).into();
    assert_eq!(headers.get_header_data().unwrap_err(), H2Error::PayloadLengthMismatch);

    // not even a header
    let mut buf = vec![0x00, 0x00];
    let headers: HeadersFrame = GenericFrame::point_to(&mut buf).into();
    assert_eq!(headers.get_header_data().unwrap_err(), H2Error::MalformedFrameHeader);

    // the padding fills all that is left: an empty body
    let mut buf = vec![0x00, 0x00, 0x03, 0x00, 0x08, 0x00, 0x00, 0x00, 0x01, 0x02, 0xFF, 0xFF];
    let data: DataFrame = GenericFrame::point_to(&mut buf).into();
    assert_eq!(data.get_data(), Ok(&[][..]));
}

#[test]
fn padded_push_promise() {
    let mut buf = vec![
        0x00, 0x00, 0x08, 0x05, 0x08, 0x00, 0x00, 0x00, 0x02, 0x01, 0x80, 0x00, 0x00, 0x07, 0xA, 0xB,
        0x00,
    ];
    let push: PushPromiseFrame = GenericFrame::point_to(&mut buf).into();
    assert_eq!(push.get_push_data().unwrap(), (7, &[0xA, 0xB][..]));
}

#[test]
fn fixed_size_errors() {
    let mut buf = vec![0x00, 0x00, 0x04, 0x02, 0x00, 0x00, 0x00, 0x00, 0x01, 0x80, 0x00, 0x00, 0x01];
    let priority: PriorityFrame = GenericFrame::point_to(&mut buf).into();
    assert_eq!(priority.get_priority_info(), Err(H2Error::ProtocolViolation));

    let mut buf = vec![0x00, 0x00, 0x07, 0x06, 0x00, 0x00, 0x00, 0x00, 0x00, 1, 2, 3, 4, 5, 6, 7];
    let ping: PingFrame = GenericFrame::point_to(&mut buf).into();
    assert_eq!(ping.get_ping_data(), Err(H2Error::ProtocolViolation));

    let mut buf = vec![0x00, 0x00, 0x03, 0x03, 0x00, 0x00, 0x00, 0x00, 0x01, 0, 0, 5];
    let rst: RstStreamFrame = GenericFrame::point_to(&mut buf).into();
    assert_eq!(rst.get_error_code(), Err(H2Error::ProtocolViolation));

    // an increment of 0, with the reserved bit set
    let mut buf = vec![0x00, 0x00, 0x04, 0x08, 0x00, 0x00, 0x00, 0x00, 0x00, 0x80, 0, 0, 0];
    let wu: WindowUpdateFrame = GenericFrame::point_to(&mut buf).into();
    assert_eq!(wu.get_window_update(), Err(H2Error::ProtocolViolation));

    let mut buf = vec![0x00, 0x00, 0x05, 0x08, 0x00, 0x00, 0x00, 0x00, 0x00, 0, 0, 0, 1, 0];
    let wu: WindowUpdateFrame = GenericFrame::point_to(&mut buf).into();
    assert_eq!(wu.get_window_update(), Err(H2Error::ProtocolViolation));

    let mut buf = vec![0x00, 0x00, 0x07, 0x07, 0x00, 0x00, 0x00, 0x00, 0x00, 0, 0, 0, 2, 0, 0, 0];
    let ga: GoAwayFrame = GenericFrame::point_to(&mut buf).into();
    assert_eq!(ga.get_go_away_info().unwrap_err(), H2Error::PayloadLengthMismatch);
}

#[test]
fn settings_errors() {
    // ACK with a payload
    let mut buf = vec![0x00, 0x00, 0x06, 0x04, 0x01, 0x00, 0x00, 0x00, 0x00, 0, 1, 0, 0, 0, 3];
    let s: SettingsFrame = GenericFrame::point_to(&mut buf).into();
    assert_eq!(s.get_settings_paramaters().unwrap_err(), H2Error::InvalidFlagCombination);

    // no whole number of records
    let mut buf = vec![0x00, 0x00, 0x05, 0x04, 0x00, 0x00, 0x00, 0x00, 0x00, 0, 1, 0, 0, 0];
    let s: SettingsFrame = GenericFrame::point_to(&mut buf).into();
    assert_eq!(s.get_settings_paramaters().unwrap_err(), H2Error::PayloadLengthMismatch);

    // ACK without a payload
    let mut buf = vec![0x00, 0x00, 0x00, 0x04, 0x01, 0x00, 0x00, 0x00, 0x00];
    let s: SettingsFrame = GenericFrame::point_to(&mut buf).into();
    assert_eq!(s.get_settings_paramaters().unwrap().next(), None);
}

#[test]
fn header_with_both_fields() {
    let payload = [0x02u8, 0x80, 0x00, 0x00, 0x1F, 0xFF, 7, 8, 9, 0, 0];
    let h = Header::new(&payload).unwrap();
    assert_eq!(h.pad_l, 2);
    assert_eq!(h.exclusive, true);
    assert_eq!(h.stream_dep, 31);
    assert_eq!(h.weight, 255);
    assert_eq!(h.header_frag, &[7, 8, 9]);
    assert_eq!(Header::new(&payload[..5]).unwrap_err(), H2Error::PayloadLengthMismatch);
    assert_eq!(Header::new(&payload[..7]).unwrap_err(), H2Error::PayloadLengthMismatch);
}

#[test]
fn frame_kinds() {
    assert_eq!(frame_kind(0), Some(FrameKind::Data));
    assert_eq!(frame_kind(1), Some(FrameKind::Headers));
    assert_eq!(frame_kind(4), Some(FrameKind::Settings));
    assert_eq!(frame_kind(9), Some(FrameKind::Continuation));
    assert_eq!(frame_kind(10), None);
    assert_eq!(frame_kind(255), None);
}

#[test]
fn error_codes() {
    assert_eq!(H2Error::CompressionError.code(), 9);
    assert_eq!(H2Error::ProtocolViolation.code(), 1);
    assert_eq!(H2Error::InvalidFlagCombination.code(), 1);
    assert_eq!(H2Error::MalformedFrameHeader.code(), 6);
    assert_eq!(H2Error::PayloadLengthMismatch.code(), 6);
}

#[test]
fn error_messages() {
    assert_eq!(H2Error::CompressionError.message(), "header block could not be decoded");
    assert_eq!(H2Error::ProtocolViolation.message(), "protocol violation");
    assert_eq!(H2Error::MalformedFrameHeader.message(), "malformed frame header");
    assert_eq!(H2Error::InvalidFlagCombination.message(), "invalid combination of flags");
    assert_eq!(
        H2Error::PayloadLengthMismatch.message(),
        "payload length does not fit the frame layout"
    );
}

#[test]
fn frame_len_waits_for_the_whole_frame() {
    let stream = [0x00u8, 0x00, 0x02, 0x06, 0x00, 0x00, 0x00, 0x00, 0x00, 0xA, 0xB, 0x00, 0x00];
    assert_eq!(frame_len(&stream[..0]), None);
    assert_eq!(frame_len(&stream[..8]), None);
    assert_eq!(frame_len(&stream[..9]), None);
    assert_eq!(frame_len(&stream[..10]), None);
    assert_eq!(frame_len(&stream[..11]), Some(11));
    assert_eq!(frame_len(&stream), Some(11));
    assert_eq!(frame_len(&[0, 0, 0, 4, 1, 0, 0, 0, 0]), Some(9));
}

#[test]
fn parse_frame_gives_the_view_of_the_type() {
    let mut buf = vec![0x00, 0x00, 0x04, 0x03, 0x00, 0x00, 0x00, 0x00, 0x01, 0x00, 0x00, 0x00, 0x05];
    match parse_frame(&mut buf).unwrap() {
        Some(TypedFrame::RstStream(f)) => {
            assert_eq!(f.get_error_code(), Ok(5));
            assert_eq!(f.get_s_identifier(), 1);
        }
        _ => panic!("not a RST_STREAM frame"),
    }

    let mut buf = vec![0x00, 0x00, 0x00, 0x04, 0x01, 0x00, 0x00, 0x00, 0x00];
    let typed = parse_frame(&mut buf).unwrap().unwrap();
    assert_eq!(typed.kind(), FrameKind::Settings);

    // a frame of an unknown type is given as nothing
    let mut buf = vec![0x00, 0x00, 0x01, 0x0B, 0x00, 0x00, 0x00, 0x00, 0x00, 0xFF];
    assert!(parse_frame(&mut buf).unwrap().is_none());

    // a buffer that holds more or less than the frame
    let mut buf = vec![0x00, 0x00, 0x01, 0x00, 0x00, 0x00, 0x00, 0x00, 0x00];
    assert_eq!(parse_frame(&mut buf).err(), Some(H2Error::MalformedFrameHeader));
    let mut buf = vec![0x00, 0x00, 0x01, 0x00, 0x00, 0x00, 0x00, 0x00, 0x00, 1, 2];
    assert_eq!(parse_frame(&mut buf).err(), Some(H2Error::MalformedFrameHeader));
    let mut buf = vec![0x00];
    assert_eq!(parse_frame(&mut buf).err(), Some(H2Error::MalformedFrameHeader));
}

#[test]
fn header_block_in_one_frame() {
    let mut blocks = BlockAssembler::new();
    assert_eq!(blocks.push(FrameKind::Headers, 0x04, 1, &[0x82]), Ok(Some(vec![0x82])));
    assert_eq!(blocks.is_open(), false);
    assert_eq!(blocks.push(FrameKind::PushPromise, 0x0C, 3, &[]), Ok(Some(vec![])));
    // frames of other kinds pass by
    assert_eq!(blocks.push(FrameKind::Data, 0x04, 1, &[1]), Ok(None));
    assert_eq!(blocks.push(FrameKind::Settings, 0x00, 0, &[]), Ok(None));
    assert_eq!(blocks.is_open(), false);
}

#[test]
fn header_block_over_continuations() {
    let mut blocks = BlockAssembler::new();
    assert_eq!(blocks.push(FrameKind::Headers, 0x01, 5, &[1, 2]), Ok(None));
    assert_eq!(blocks.is_open(), true);
    assert_eq!(blocks.push(FrameKind::Continuation, 0x00, 5, &[3]), Ok(None));
    assert_eq!(blocks.push(FrameKind::Continuation, 0x04, 5, &[4, 5]), Ok(Some(vec![1, 2, 3, 4, 5])));
    assert_eq!(blocks.is_open(), false);
    // the next block starts from nothing
    assert_eq!(blocks.push(FrameKind::Headers, 0x04, 7, &[9]), Ok(Some(vec![9])));
}

#[test]
fn header_block_may_not_be_interrupted() {
    let mut blocks = BlockAssembler::new();
    // a continuation of nothing
    assert_eq!(blocks.push(FrameKind::Continuation, 0x04, 1, &[1]), Err(H2Error::ProtocolViolation));

    assert_eq!(blocks.push(FrameKind::Headers, 0x00, 1, &[1]), Ok(None));
    // a frame of another kind
    assert_eq!(blocks.push(FrameKind::Data, 0x00, 1, &[]), Err(H2Error::ProtocolViolation));
    assert_eq!(blocks.is_open(), false);

    assert_eq!(blocks.push(FrameKind::Headers, 0x00, 1, &[1]), Ok(None));
    // a continuation on another stream
    assert_eq!(blocks.push(FrameKind::Continuation, 0x04, 3, &[2]), Err(H2Error::ProtocolViolation));

    assert_eq!(blocks.push(FrameKind::Headers, 0x00, 1, &[1]), Ok(None));
    // a second start
    assert_eq!(blocks.push(FrameKind::Headers, 0x04, 1, &[2]), Err(H2Error::ProtocolViolation));
    assert_eq!(blocks.is_open(), false);
}

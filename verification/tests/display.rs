use nebula::display::{
    decode_msg_header, parse_frame, read_msg, write_frame, write_msg, FrameHeader, Input, ReadError,
    ShmHeader, FORMAT_XRGB8888, FRAME_HEADER_LEN, KIND_CONTROL, KIND_FRAME, MAX_MSG_LEN, SHM_HEADER_LEN,
    SHM_MAGIC,
};

#[test]
fn frame_header_roundtrips() {
    let h = FrameHeader {
        surface: 0,
        seq: 42,
        x: 1,
        y: 2,
        w: 640,
        h: 480,
        stride: 640 * 4,
        format: FORMAT_XRGB8888,
    };
    assert_eq!(FrameHeader::decode(&h.encode()), Some(h));
    assert_eq!(h.payload_len(), 640 * 480 * 4);
}

#[test]
fn frame_roundtrips_through_the_wire() {
    let h = FrameHeader {
        surface: 0,
        seq: 1,
        x: 0,
        y: 0,
        w: 4,
        h: 2,
        stride: 16,
        format: FORMAT_XRGB8888,
    };
    let pixels = vec![0xABu8; h.payload_len()];
    let mut buf = Vec::new();
    write_frame(&mut buf, &h, &pixels);

    let mut cur = Input { data: buf, pos: 0 };
    let (kind, payload) = read_msg(&mut cur).unwrap().unwrap();
    assert_eq!(kind, KIND_FRAME);
    let (got, got_pixels) = parse_frame(&payload).unwrap();
    assert_eq!(got, h);
    assert_eq!(got_pixels, &pixels[..]);
    assert!(read_msg(&mut cur).unwrap().is_none(), "clean EOF");
}

#[test]
fn truncated_frame_is_rejected_not_panicked() {
    let h = FrameHeader {
        surface: 0,
        seq: 1,
        x: 0,
        y: 0,
        w: 4,
        h: 2,
        stride: 16,
        format: FORMAT_XRGB8888,
    };
    let mut payload = h.encode().to_vec();
    payload.extend_from_slice(&[0u8; 8]); // short: needs 32
    assert!(parse_frame(&payload).is_none());
}

#[test]
fn header_fields_are_little_endian_in_order() {
    let h = FrameHeader {
        surface: 1,
        seq: 2,
        x: 3,
        y: 4,
        w: 5,
        h: 6,
        stride: 7,
        format: 0x0403_0201,
    };
    let b = h.encode();
    assert_eq!(b.len(), FRAME_HEADER_LEN);
    assert_eq!(&b[0..8], &[1, 0, 0, 0, 2, 0, 0, 0]);
    assert_eq!(&b[28..32], &[1, 2, 3, 4]);
    assert_eq!(FrameHeader::decode(&b[..31]), None);
}

#[test]
fn a_message_reads_back_and_leaves_the_next() {
    let mut buf = Vec::new();
    write_msg(&mut buf, KIND_CONTROL, b"one");
    write_msg(&mut buf, 9, b"");
    let mut input = Input { data: buf, pos: 0 };
    assert_eq!(read_msg(&mut input).unwrap(), Some((KIND_CONTROL, b"one".to_vec())));
    assert_eq!(read_msg(&mut input).unwrap(), Some((9, vec![])));
    assert_eq!(read_msg(&mut input).unwrap(), None);
}

#[test]
fn a_message_over_the_limit_is_refused() {
    let mut hdr = Vec::new();
    hdr.extend_from_slice(&KIND_FRAME.to_le_bytes());
    hdr.extend_from_slice(&((MAX_MSG_LEN + 1) as u32).to_le_bytes());
    assert!(matches!(decode_msg_header(&hdr), Err(ReadError::TooLong(n)) if n == MAX_MSG_LEN + 1));
    let mut input = Input { data: hdr, pos: 0 };
    assert!(matches!(read_msg(&mut input), Err(ReadError::TooLong(_))));
}

#[test]
fn a_message_cut_short_is_an_error() {
    let mut buf = Vec::new();
    write_msg(&mut buf, KIND_CONTROL, b"hello");
    buf.truncate(10);
    let mut input = Input { data: buf, pos: 0 };
    assert!(matches!(read_msg(&mut input), Err(ReadError::Truncated)));
}

#[test]
fn shared_memory_headers_decode() {
    let mut b = vec![0u8; SHM_HEADER_LEN];
    let fields: [u32; 8] = [SHM_MAGIC, 1, 640, 480, 2560, FORMAT_XRGB8888, 7, 0];
    for (i, v) in fields.iter().enumerate() {
        b[i * 4..i * 4 + 4].copy_from_slice(&v.to_le_bytes());
    }
    let h = ShmHeader::decode(&b).unwrap();
    assert_eq!((h.width, h.height, h.stride, h.seq), (640, 480, 2560, 7));
    assert_eq!(h.mapping_len(), 64 + 2560 * 480);
    b[0] = 0;
    assert!(ShmHeader::decode(&b).is_none());
    assert!(ShmHeader::decode(&b[..20]).is_none());
}

#[test]
fn the_pixel_format_is_the_fourcc() {
    assert_eq!(&FORMAT_XRGB8888.to_le_bytes(), b"XR24");
}

#[test]
fn a_header_cut_short_is_no_clean_end() {
    for n in 1..8 {
        let mut input = Input { data: vec![1u8; n], pos: 0 };
        assert_eq!(read_msg(&mut input).unwrap_err(), ReadError::Truncated);
        assert_eq!(input.pos, 0);
    }
    let mut input = Input { data: vec![1, 0, 0], pos: 3 };
    assert_eq!(read_msg(&mut input).unwrap(), None);
}

//! Host and guest display protocol: framed messages.
//!
//! A framebuffer transport: CPU pixels, full frames, one surface. Every message
//! carries a surface id, frames carry the rectangle they cover, and the pixel
//! format is a fourcc.
//!
//! Framing (little-endian): kind, length, payload. The payload of a control
//! message is one JSON document; that of a frame is a header of 32 bytes and
//! raw pixels. Control messages flow both ways, frames only to the host.

use crate::bytes::{from_le32, le32, push_bytes, push_le32, read_le32, slice_of};
use crate::double::Double;
use vstd::prelude::*;
use vstd::slice::slice_subrange;

verus! {

/// Guest vsock port the display agent listens on.
pub const VSOCK_PORT_DISPLAY: u32 = 1027;

/// Both ends refuse a mismatch.
pub const DISPLAY_PROTO_VERSION: u32 = 1;

pub const KIND_CONTROL: u32 = 1;

pub const KIND_FRAME: u32 = 2;

/// Guards against a stray connection that speaks another protocol: the first
/// control message must carry it.
pub const DISPLAY_MAGIC: u32 = 0x4e42_4453;

/// Four bytes per pixel, blue in the low byte, high byte ignored.
pub const FORMAT_XRGB8888: u32 = 0x3432_5258;

pub const FRAME_HEADER_LEN: usize = 32;

/// Cap on a message's payload.
pub const MAX_MSG_LEN: usize = 67108864;

pub const SHM_MAGIC: u32 = 0x4e42_5348;

pub const SHM_HEADER_LEN: usize = 64;

/// What a frame covers and how its pixels are laid out.
#[derive(Debug, Clone, Copy, PartialEq, Eq, Structural)]
pub struct FrameHeader {
    pub surface: u32,
    pub seq: u32,
    pub x: u32,
    pub y: u32,
    pub w: u32,
    pub h: u32,
    pub stride: u32,
    pub format: u32,
}

impl FrameHeader {
    /// The header on the wire: its eight fields in little-endian order.
    #[verifier::opaque]
    pub open spec fn wire(self) -> Seq<u8> {
        le32(self.surface) + le32(self.seq) + le32(self.x) + le32(self.y) + le32(self.w) + le32(
            self.h,
        ) + le32(self.stride) + le32(self.format)
    }

    /// The header that the first 32 bytes write.
    pub open spec fn of(b: Seq<u8>) -> FrameHeader {
        FrameHeader {
            surface: from_le32(b, 0),
            seq: from_le32(b, 4),
            x: from_le32(b, 8),
            y: from_le32(b, 12),
            w: from_le32(b, 16),
            h: from_le32(b, 20),
            stride: from_le32(b, 24),
            format: from_le32(b, 28),
        }
    }

    pub fn encode(&self) -> (b: Vec<u8>)
        ensures
            b@ == self.wire(),
            b@.len() == FRAME_HEADER_LEN,
    {
        let mut b: Vec<u8> = Vec::new();
        push_le32(&mut b, self.surface);
        push_le32(&mut b, self.seq);
        push_le32(&mut b, self.x);
        push_le32(&mut b, self.y);
        push_le32(&mut b, self.w);
        push_le32(&mut b, self.h);
        push_le32(&mut b, self.stride);
        push_le32(&mut b, self.format);
        reveal(FrameHeader::wire);
        assert(b@ =~= self.wire());
        b
    }

    /// The header at the start of the bytes, if they are enough.
    pub fn decode(b: &[u8]) -> (r: Option<FrameHeader>)
        ensures
            r == (if b@.len() < FRAME_HEADER_LEN {
                None
            } else {
                Some(FrameHeader::of(b@))
            }),
    {
        if b.len() < FRAME_HEADER_LEN {
            return None;
        }
        Some(
            FrameHeader {
                surface: read_le32(b, 0),
                seq: read_le32(b, 4),
                x: read_le32(b, 8),
                y: read_le32(b, 12),
                w: read_le32(b, 16),
                h: read_le32(b, 20),
                stride: read_le32(b, 24),
                format: read_le32(b, 28),
            },
        )
    }

    /// How many bytes of pixels belong to the frame.
    pub fn payload_len(&self) -> (n: usize)
        requires
            self.stride * self.h <= usize::MAX,
        ensures
            n == self.stride * self.h,
    {
        self.stride as usize * self.h as usize
    }
}

/// A decoded header is the one that was encoded.
pub proof fn header_round_trips(h: FrameHeader, rest: Seq<u8>)
    ensures
        FrameHeader::of(h.wire() + rest) == h,
        h.wire().len() == FRAME_HEADER_LEN,
{
    reveal(FrameHeader::wire);
    let b = h.wire() + rest;
    assert(b.subrange(0, 4) =~= le32(h.surface));
    assert(b.subrange(4, 8) =~= le32(h.seq));
    assert(b.subrange(8, 12) =~= le32(h.x));
    assert(b.subrange(12, 16) =~= le32(h.y));
    assert(b.subrange(16, 20) =~= le32(h.w));
    assert(b.subrange(20, 24) =~= le32(h.h));
    assert(b.subrange(24, 28) =~= le32(h.stride));
    assert(b.subrange(28, 32) =~= le32(h.format));
    crate::bytes::le32_reads_back(h.surface, b, 0);
    crate::bytes::le32_reads_back(h.seq, b, 4);
    crate::bytes::le32_reads_back(h.x, b, 8);
    crate::bytes::le32_reads_back(h.y, b, 12);
    crate::bytes::le32_reads_back(h.w, b, 16);
    crate::bytes::le32_reads_back(h.h, b, 20);
    crate::bytes::le32_reads_back(h.stride, b, 24);
    crate::bytes::le32_reads_back(h.format, b, 28);
}

/// Why a message could not be read.
#[derive(Debug, Clone, Copy, PartialEq, Eq, Structural)]
pub enum ReadError {
    /// The announced length exceeds the cap.
    TooLong(usize),
    /// The input ends inside a header or a payload.
    Truncated,
}

/// Bytes to read messages from, and the position reached.
#[derive(Debug)]
pub struct Input {
    pub data: Vec<u8>,
    pub pos: usize,
}

impl Input {
    pub open spec fn valid(self) -> bool {
        self.pos <= self.data@.len()
    }

    /// What is left to read.
    pub open spec fn rest(self) -> Seq<u8> {
        self.data@.skip(self.pos as int)
    }
}

/// The kind and the payload length that a message header of eight bytes
/// announces; an error beyond the cap.
pub fn decode_msg_header(hdr: &[u8]) -> (r: Result<(u32, usize), ReadError>)
    requires
        hdr@.len() >= 8,
    ensures
        r == (if from_le32(hdr@, 4) > MAX_MSG_LEN {
            Err(ReadError::TooLong(from_le32(hdr@, 4) as usize))
        } else {
            Ok((from_le32(hdr@, 0), from_le32(hdr@, 4) as usize))
        }),
{
    let kind: u32 = read_le32(hdr, 0);
    let len: usize = read_le32(hdr, 4) as usize;
    if len > MAX_MSG_LEN {
        return Err(ReadError::TooLong(len));
    }
    Ok((kind, len))
}

/// What reading one message from `s` gives: nothing where no byte is left, an
/// error for a header or a payload cut short or a length beyond the cap, or
/// the kind and the payload.
pub open spec fn message_of(s: Seq<u8>) -> Result<Option<(u32, Seq<u8>)>, ReadError> {
    let len = from_le32(s, 4);
    if s.len() == 0 {
        Ok(None)
    } else if s.len() < 8 {
        Err(ReadError::Truncated)
    } else if len > MAX_MSG_LEN {
        Err(ReadError::TooLong(len as usize))
    } else if s.len() < 8 + len {
        Err(ReadError::Truncated)
    } else {
        Ok(Some((from_le32(s, 0), s.subrange(8, 8 + len as int))))
    }
}

/// Read one message. The end of the input is `None` at a message boundary only;
/// after a message the input stands behind it, otherwise where it stood.
pub fn read_msg(r: &mut Input) -> (res: Result<Option<(u32, Vec<u8>)>, ReadError>)
    requires
        old(r).valid(),
    ensures
        final(r).valid(),
        final(r).data == old(r).data,
        match res {
            Ok(Some((kind, payload))) => message_of(old(r).rest()) == Ok::<_, ReadError>(
                Some((kind, payload@)),
            ) && final(r).pos == old(r).pos + 8 + payload@.len(),
            Ok(None) => message_of(old(r).rest()) == Ok::<Option<(u32, Seq<u8>)>, ReadError>(None)
                && final(r).pos == old(r).pos,
            Err(e) => message_of(old(r).rest()) == Err::<Option<(u32, Seq<u8>)>, _>(e)
                && final(r).pos == old(r).pos,
        },
{
    let ghost s = r.rest();
    let n: usize = r.data.len();
    let at: usize = r.pos;
    if n == at {
        return Ok(None);
    }
    if n - at < 8 {
        return Err(ReadError::Truncated);
    }
    let hdr: &[u8] = slice_subrange(r.data.as_slice(), at, at + 8);
    proof {
        assert(hdr@ =~= s.take(8));
        assert(from_le32(hdr@, 0) == from_le32(s, 0));
        assert(from_le32(hdr@, 4) == from_le32(s, 4));
    }
    match decode_msg_header(hdr) {
        Err(e) => Err(e),
        Ok((kind, len)) => {
            if n - at - 8 < len {
                return Err(ReadError::Truncated);
            }
            let payload: Vec<u8> = slice_of(r.data.as_slice(), at + 8, at + 8 + len);
            assert(payload@ =~= s.subrange(8, 8 + len as int));
            r.pos = at + 8 + len;
            Ok(Some((kind, payload)))
        },
    }
}

/// A message on the wire. The length is written modulo 2^32.
pub open spec fn message_bytes(kind: u32, payload: Seq<u8>) -> Seq<u8> {
    le32(kind) + le32((payload.len() % 0x1_0000_0000) as u32) + payload
}

/// Append a message.
pub fn write_msg(w: &mut Vec<u8>, kind: u32, payload: &[u8])
    ensures
        final(w)@ == old(w)@ + message_bytes(kind, payload@),
{
    push_le32(w, kind);
    push_le32(w, (payload.len() as u64 % 0x1_0000_0000) as u32);
    push_bytes(w, payload);
    assert(w@ =~= old(w)@ + message_bytes(kind, payload@));
}

/// Append a frame: the message of its header and its pixels.
pub fn write_frame(w: &mut Vec<u8>, hdr: &FrameHeader, pixels: &[u8])
    requires
        pixels@.len() == hdr.stride * hdr.h,
        pixels@.len() + FRAME_HEADER_LEN <= usize::MAX,
    ensures
        final(w)@ == old(w)@ + message_bytes(KIND_FRAME, hdr.wire() + pixels@),
{
    let head: Vec<u8> = hdr.encode();
    push_le32(w, KIND_FRAME);
    push_le32(w, ((FRAME_HEADER_LEN + pixels.len()) as u64 % 0x1_0000_0000) as u32);
    push_bytes(w, head.as_slice());
    push_bytes(w, pixels);
    assert(w@ =~= old(w)@ + message_bytes(KIND_FRAME, hdr.wire() + pixels@));
}

/// The header and the pixels of a frame's payload; `None` where there is no
/// whole header, or not exactly the pixels that it announces.
pub open spec fn frame_of(payload: Seq<u8>) -> Option<(FrameHeader, Seq<u8>)> {
    let hdr = FrameHeader::of(payload);
    if payload.len() >= FRAME_HEADER_LEN && payload.len() - FRAME_HEADER_LEN == hdr.stride * hdr.h {
        Some((hdr, payload.skip(FRAME_HEADER_LEN as int)))
    } else {
        None
    }
}

/// Take a frame's payload apart. A truncated or over-long frame means that the
/// peers disagree about geometry; it is refused.
pub fn parse_frame(payload: &[u8]) -> (r: Option<(FrameHeader, &[u8])>)
    ensures
        match r {
            Some((hdr, pixels)) => frame_of(payload@) == Some((hdr, pixels@)),
            None => frame_of(payload@) is None,
        },
{
    match FrameHeader::decode(payload) {
        None => None,
        Some(hdr) => {
            let pixels: &[u8] = slice_subrange(payload, FRAME_HEADER_LEN, payload.len());
            proof {
                crate::bytes::u32_product_fits(hdr.stride, hdr.h);
            }
            if pixels.len() as u64 != hdr.stride as u64 * hdr.h as u64 {
                return None;
            }
            assert(pixels@ =~= payload@.skip(FRAME_HEADER_LEN as int));
            Some((hdr, pixels))
        },
    }
}

/// A message that was written is the one that is read, whatever follows it.
pub proof fn message_round_trips(kind: u32, payload: Seq<u8>, rest: Seq<u8>)
    requires
        payload.len() <= MAX_MSG_LEN,
    ensures
        message_of(message_bytes(kind, payload) + rest) == Ok::<_, ReadError>(
            Some((kind, payload)),
        ),
{
    let s = message_bytes(kind, payload) + rest;
    let len = payload.len() as u32;
    assert(s.subrange(0, 4) =~= le32(kind));
    assert(s.subrange(4, 8) =~= le32(len));
    crate::bytes::le32_reads_back(kind, s, 0);
    crate::bytes::le32_reads_back(len, s, 4);
    assert(s.subrange(8, 8 + len as int) =~= payload);
}

/// A frame that was written is the one that is read: reading the message and
/// taking its payload apart gives back the header and the pixels.
pub proof fn frame_round_trips(hdr: FrameHeader, pixels: Seq<u8>, rest: Seq<u8>)
    requires
        pixels.len() == hdr.stride * hdr.h,
        pixels.len() + FRAME_HEADER_LEN <= MAX_MSG_LEN,
    ensures
        message_of(message_bytes(KIND_FRAME, hdr.wire() + pixels) + rest) == Ok::<_, ReadError>(
            Some((KIND_FRAME, hdr.wire() + pixels)),
        ),
        frame_of(hdr.wire() + pixels) == Some((hdr, pixels)),
{
    header_round_trips(hdr, pixels);
    message_round_trips(KIND_FRAME, hdr.wire() + pixels, rest);
    assert((hdr.wire() + pixels).skip(FRAME_HEADER_LEN as int) =~= pixels);
}

/// The header of a shared-memory frame source.
#[derive(Debug, Clone, Copy, PartialEq, Eq, Structural)]
pub struct ShmHeader {
    pub magic: u32,
    pub version: u32,
    pub width: u32,
    pub height: u32,
    pub stride: u32,
    pub format: u32,
    pub seq: u32,
    pub flags: u32,
}

impl ShmHeader {
    /// The fields that the first 32 bytes write.
    pub open spec fn of(b: Seq<u8>) -> ShmHeader {
        ShmHeader {
            magic: from_le32(b, 0),
            version: from_le32(b, 4),
            width: from_le32(b, 8),
            height: from_le32(b, 12),
            stride: from_le32(b, 16),
            format: from_le32(b, 20),
            seq: from_le32(b, 24),
            flags: from_le32(b, 28),
        }
    }

    /// The header at the start of the bytes: there must be 64 of them, and the
    /// magic number must match.
    pub fn decode(b: &[u8]) -> (r: Option<ShmHeader>)
        ensures
            r == (if b@.len() < SHM_HEADER_LEN || from_le32(b@, 0) != SHM_MAGIC {
                None
            } else {
                Some(ShmHeader::of(b@))
            }),
    {
        if b.len() < SHM_HEADER_LEN {
            return None;
        }
        let h = ShmHeader {
            magic: read_le32(b, 0),
            version: read_le32(b, 4),
            width: read_le32(b, 8),
            height: read_le32(b, 12),
            stride: read_le32(b, 16),
            format: read_le32(b, 20),
            seq: read_le32(b, 24),
            flags: read_le32(b, 28),
        };
        if h.magic == SHM_MAGIC {
            Some(h)
        } else {
            None
        }
    }

    /// How many bytes the mapping needs.
    pub fn mapping_len(&self) -> (n: usize)
        requires
            SHM_HEADER_LEN + self.stride * self.height <= usize::MAX,
        ensures
            n == SHM_HEADER_LEN + self.stride * self.height,
    {
        SHM_HEADER_LEN + self.stride as usize * self.height as usize
    }
}

/// A control message.
#[derive(Debug)]
pub enum DisplayMsg {
    /// To the guest, first of all.
    Hello { magic: u32, version: u32 },
    /// The answer to it.
    HelloAck { magic: u32, version: u32, source: String },
    /// A surface appeared or changed its size; sent before its first frame. A
    /// title is shown on the host's window; none keeps the one that is there.
    SurfaceConfig { surface: u32, width: u32, height: u32, title: Option<String> },
    /// A surface is gone; the host closes its window.
    SurfaceGone { surface: u32 },
    /// The pointer moved to a place on the surface, in its pixels.
    PointerMotion { surface: u32, x: i32, y: i32 },
    /// The button is a Linux evdev code.
    PointerButton { surface: u32, button: u32, pressed: bool },
    /// A scroll, in the surface's pixels. A positive `dy` scrolls content down.
    PointerAxis { surface: u32, dx: Double, dy: Double },
    /// The key is a Linux evdev code.
    Key { surface: u32, keycode: u32, pressed: bool },
    /// The host's window has a new size.
    Resize { surface: u32, width: u32, height: u32 },
    /// The host's window was closed.
    Close { surface: u32 },
    /// A frame was put on the screen.
    FrameAck { surface: u32, seq: u32 },
}

/// A number of four bytes, the lowest first.
pub open spec fn word(b: Seq<u8>, at: int) -> int {
    b[at] + 0x100 * b[at + 1] + 0x1_0000 * b[at + 2] + 0x100_0000 * b[at + 3]
}

proof fn lemma_word(n: u32, b: Seq<u8>, at: int)
    requires
        0 <= at,
        at + 4 <= b.len(),
        b.subrange(at, at + 4) == le32(n),
    ensures
        word(b, at) == n,
{
    let w = b.subrange(at, at + 4);
    assert(w[0] == b[at] && w[1] == b[at + 1] && w[2] == b[at + 2] && w[3] == b[at + 3]);
}

/// Where a frame's header has each of its fields on the wire.
pub proof fn how_a_header_is_laid_out(h: FrameHeader)
    ensures
        ({
            let b = h.wire();
            &&& b.len() == 32
            &&& word(b, 0) == h.surface
            &&& word(b, 4) == h.seq
            &&& word(b, 8) == h.x
            &&& word(b, 12) == h.y
            &&& word(b, 16) == h.w
            &&& word(b, 20) == h.h
            &&& word(b, 24) == h.stride
            &&& word(b, 28) == h.format
        }),
{
    reveal(FrameHeader::wire);
    let b = h.wire();
    assert(b.subrange(0, 4) =~= le32(h.surface));
    assert(b.subrange(4, 8) =~= le32(h.seq));
    assert(b.subrange(8, 12) =~= le32(h.x));
    assert(b.subrange(12, 16) =~= le32(h.y));
    assert(b.subrange(16, 20) =~= le32(h.w));
    assert(b.subrange(20, 24) =~= le32(h.h));
    assert(b.subrange(24, 28) =~= le32(h.stride));
    assert(b.subrange(28, 32) =~= le32(h.format));
    lemma_word(h.surface, b, 0);
    lemma_word(h.seq, b, 4);
    lemma_word(h.x, b, 8);
    lemma_word(h.y, b, 12);
    lemma_word(h.w, b, 16);
    lemma_word(h.h, b, 20);
    lemma_word(h.stride, b, 24);
    lemma_word(h.format, b, 28);
}

/// A message is its kind, its length and its payload.
pub proof fn how_a_message_is_laid_out(kind: u32, payload: Seq<u8>)
    requires
        payload.len() < 0x1_0000_0000,
    ensures
        ({
            let b = message_bytes(kind, payload);
            &&& b.len() == 8 + payload.len()
            &&& word(b, 0) == kind
            &&& word(b, 4) == payload.len()
            &&& b.skip(8) == payload
        }),
{
    let b = message_bytes(kind, payload);
    assert(b.subrange(0, 4) =~= le32(kind));
    assert(b.subrange(4, 8) =~= le32(payload.len() as u32));
    lemma_word(kind, b, 0);
    lemma_word(payload.len() as u32, b, 4);
    assert(b.skip(8) =~= payload);
}

/// Where a shared mapping has what it says of its frame.
pub proof fn how_a_mapping_is_laid_out(b: Seq<u8>)
    requires
        b.len() >= 64,
    ensures
        ({
            let h = ShmHeader::of(b);
            &&& h.magic == word(b, 0)
            &&& h.version == word(b, 4)
            &&& h.width == word(b, 8)
            &&& h.height == word(b, 12)
            &&& h.stride == word(b, 16)
            &&& h.format == word(b, 20)
            &&& h.seq == word(b, 24)
            &&& h.flags == word(b, 28)
        }),
{
}

} // verus!

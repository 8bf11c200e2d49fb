//! The host's half of the display bridge: the handshake, the picture that the
//! guest's frames make, and what the window's events say to the guest.

use crate::display::{
    DisplayMsg, FrameHeader, DISPLAY_MAGIC, DISPLAY_PROTO_VERSION, FORMAT_XRGB8888, KIND_CONTROL,
};
use crate::double::Double;
use crate::text::{cat2, cat3, decimal_str, hex_digit_of, opt_owned, owned, push_char, same};
use vstd::arithmetic::div_mod::lemma_fundamental_div_mod_converse;
use vstd::prelude::*;

verus! {

// Arguments

/// What the viewer is told.
#[derive(Debug)]
pub struct Args {
    pub socket: Option<String>,
    pub title: String,
}

pub struct ArgsView {
    pub socket: Option<Seq<char>>,
    pub title: Seq<char>,
}

impl View for Args {
    type V = ArgsView;

    open spec fn view(&self) -> ArgsView {
        ArgsView { socket: crate::text::opt_view(self.socket), title: self.title@ }
    }
}

/// What its arguments come to.
#[derive(Debug)]
pub enum Parsed {
    Run(Args),
    Help,
    Unexpected(String),
}

pub enum ParsedView {
    Run(ArgsView),
    Help,
    Unexpected(Seq<char>),
}

impl View for Parsed {
    type V = ParsedView;

    open spec fn view(&self) -> ParsedView {
        match *self {
            Parsed::Run(a) => ParsedView::Run(a@),
            Parsed::Help => ParsedView::Help,
            Parsed::Unexpected(s) => ParsedView::Unexpected(s@),
        }
    }
}

/// What follows an option and its value.
pub open spec fn behind(args: Seq<Seq<char>>) -> Seq<Seq<char>> {
    if args.len() >= 2 {
        args.skip(2)
    } else {
        Seq::empty()
    }
}

/// Read the arguments from the front. The last socket and title count; a
/// socket without a value is none, a title without one stays what it was.
pub open spec fn args_of(args: Seq<Seq<char>>, so_far: ArgsView) -> ParsedView
    decreases args.len(),
{
    if args.len() == 0 {
        ParsedView::Run(so_far)
    } else if args[0] == "--socket"@ {
        args_of(
            behind(args),
            ArgsView {
                socket: if args.len() >= 2 {
                    Some(args[1])
                } else {
                    None
                },
                ..so_far
            },
        )
    } else if args[0] == "--title"@ {
        args_of(
            behind(args),
            if args.len() >= 2 {
                ArgsView { title: args[1], ..so_far }
            } else {
                so_far
            },
        )
    } else if args[0] == "-h"@ || args[0] == "--help"@ {
        ParsedView::Help
    } else {
        ParsedView::Unexpected(args[0])
    }
}

/// Read the viewer's arguments.
pub fn parse_args(args: &Vec<String>) -> (r: Parsed)
    ensures
        r@ == args_of(
            crate::text::views(args@),
            (ArgsView { socket: None, title: "Nebula display"@ }),
        ),
{
    let ghost all = crate::text::views(args@);
    let ghost start = ArgsView { socket: None, title: "Nebula display"@ };
    let mut socket: Option<String> = None;
    let mut title: String = owned("Nebula display");
    let n: usize = args.len();
    let mut i: usize = 0;
    assert(all.skip(0) =~= all);
    while i < n
        invariant
            i <= n,
            n == args@.len(),
            all == crate::text::views(args@),
            start == (ArgsView { socket: None, title: "Nebula display"@ }),
            args_of(all, start) == args_of(
                all.skip(i as int),
                (ArgsView { socket: crate::text::opt_view(socket), title: title@ }),
            ),
        decreases n - i,
    {
        let ghost cur = all.skip(i as int);
        proof {
            reveal_with_fuel(args_of, 2);
            assert(cur[0] == args@[i as int]@);
        }
        if same(args[i].as_str(), "--socket") {
            if n - i >= 2 {
                proof {
                    assert(cur[1] == args@[i as int + 1]@);
                    assert(cur.skip(2) =~= all.skip(i as int + 2));
                }
                socket = Some(owned(args[i + 1].as_str()));
                i = i + 2;
            } else {
                return Parsed::Run(Args { socket: None, title });
            }
        } else if same(args[i].as_str(), "--title") {
            if n - i >= 2 {
                proof {
                    assert(cur[1] == args@[i as int + 1]@);
                    assert(cur.skip(2) =~= all.skip(i as int + 2));
                }
                title = owned(args[i + 1].as_str());
                i = i + 2;
            } else {
                return Parsed::Run(Args { socket, title });
            }
        } else if same(args[i].as_str(), "-h") || same(args[i].as_str(), "--help") {
            return Parsed::Help;
        } else {
            return Parsed::Unexpected(owned(args[i].as_str()));
        }
    }
    assert(all.skip(n as int) =~= Seq::empty());
    Parsed::Run(Args { socket, title })
}

// The handshake

/// The first message to a guest.
pub fn hello() -> (m: DisplayMsg)
    ensures
        m == (DisplayMsg::Hello { magic: DISPLAY_MAGIC, version: DISPLAY_PROTO_VERSION }),
{
    DisplayMsg::Hello { magic: DISPLAY_MAGIC, version: DISPLAY_PROTO_VERSION }
}

/// Why a guest is refused.
#[derive(Debug)]
pub enum AckError {
    Closed,
    NotControl,
    NotNebula,
    Version { version: u32 },
    /// Another message came, shown here.
    NoAck { got: String },
}

impl AckError {
    pub fn message(&self) -> (s: String)
        ensures
            s@ == (match *self {
                AckError::Closed => "display agent closed the connection during the handshake"@,
                AckError::NotControl => "expected a control message"@,
                AckError::NotNebula => "not a nebula display agent"@,
                AckError::Version { version } => "agent speaks display protocol v"@
                    + crate::text::decimal(version as nat) + ", this viewer speaks v"@
                    + crate::text::decimal(DISPLAY_PROTO_VERSION as nat) + " — rebuild the rootfs"@,
                AckError::NoAck { got } => "expected HelloAck, got "@ + got@,
            }),
    {
        match self {
            AckError::Closed => owned("display agent closed the connection during the handshake"),
            AckError::NotControl => owned("expected a control message"),
            AckError::NotNebula => owned("not a nebula display agent"),
            AckError::Version { version } => crate::text::cat5(
                "agent speaks display protocol v",
                decimal_str(*version as u64).as_str(),
                ", this viewer speaks v",
                decimal_str(DISPLAY_PROTO_VERSION as u64).as_str(),
                " — rebuild the rootfs",
            ),
            AckError::NoAck { got } => cat2("expected HelloAck, got ", got.as_str()),
        }
    }
}

/// What a guest's answer is worth.
pub open spec fn ack_checked(
    answer: Option<(u32, DisplayMsg)>,
    shown: Seq<char>,
    r: Result<String, AckError>,
) -> bool {
    match answer {
        None => r matches Err(AckError::Closed),
        Some((kind, msg)) => if kind != KIND_CONTROL {
            r matches Err(AckError::NotControl)
        } else {
            match msg {
                DisplayMsg::HelloAck { magic, version, source } => if magic != DISPLAY_MAGIC {
                    r matches Err(AckError::NotNebula)
                } else if version != DISPLAY_PROTO_VERSION {
                    r matches Err(AckError::Version { version: v }) && v == version
                } else {
                    r is Ok && r->Ok_0@ == source@
                },
                _ => r matches Err(AckError::NoAck { got }) && got@ == shown,
            }
        },
    }
}

/// Check a guest's answer; what its frames come from. `shown` is the message of
/// the answer as a reader of the log sees it.
pub fn check_ack(answer: &Option<(u32, DisplayMsg)>, shown: &str) -> (r: Result<String, AckError>)
    ensures
        ack_checked(*answer, shown@, r),
{
    match answer {
        None => Err(AckError::Closed),
        Some((kind, msg)) => {
            if *kind != KIND_CONTROL {
                return Err(AckError::NotControl);
            }
            match msg {
                DisplayMsg::HelloAck { magic, version, source } => {
                    if *magic != DISPLAY_MAGIC {
                        Err(AckError::NotNebula)
                    } else if *version != DISPLAY_PROTO_VERSION {
                        Err(AckError::Version { version: *version })
                    } else {
                        Ok(owned(source.as_str()))
                    }
                },
                _ => Err(AckError::NoAck { got: owned(shown) }),
            }
        },
    }
}

// The picture

/// The guest's picture: packed pixels, row by row.
#[derive(Debug)]
pub struct FrameBuf {
    pub width: u32,
    pub height: u32,
    pub pixels: Vec<u32>,
    /// Counts the frames; a new one is drawn only where it changed.
    pub generation: u64,
    /// The number of the last frame.
    pub seq: u32,
}

/// What a control message does to the window.
#[derive(Debug)]
pub struct ControlDo {
    /// The title to show; none keeps the one that is there.
    pub title: Option<String>,
    /// The window is closed.
    pub close: bool,
}

/// The pixels of an empty picture.
pub open spec fn blank(w: u32, h: u32) -> Seq<u32> {
    Seq::new((w * h) as nat, |i: int| 0u32)
}

/// A pixel of a frame, of which the high byte does not count.
pub open spec fn source_pixel(hdr: FrameHeader, bytes: Seq<u8>, col: int, row: int) -> u32 {
    let at = row * hdr.stride + col * 4;
    (bytes[at] + bytes[at + 1] * 0x100 + bytes[at + 2] * 0x1_0000) as u32
}

/// Whether a frame covers a place of the picture.
pub open spec fn covers(hdr: FrameHeader, x: int, y: int) -> bool {
    hdr.x <= x < hdr.x + hdr.w && hdr.y <= y < hdr.y + hdr.h
}

/// The picture's pixels after a frame: those that it covers are its own, the
/// others stay.
pub open spec fn blitted(
    pixels: Seq<u32>,
    width: u32,
    hdr: FrameHeader,
    bytes: Seq<u8>,
) -> Seq<u32> {
    Seq::new(
        pixels.len(),
        |i: int|
            {
                let x = i % (width as int);
                let y = i / (width as int);
                if covers(hdr, x, y) {
                    source_pixel(hdr, bytes, x - hdr.x, y - hdr.y)
                } else {
                    pixels[i]
                }
            },
    )
}

/// How many rows, or columns, of a frame lie within the picture.
pub open spec fn visible(at: u32, n: u32, size: u32) -> int {
    if at >= size {
        0
    } else if n <= size - at {
        n as int
    } else {
        size - at
    }
}

/// Whether a frame's bytes hold every pixel of it that lies within the
/// picture.
pub open spec fn all_there(hdr: FrameHeader, fw: u32, fh: u32, len: int) -> bool {
    let rows = visible(hdr.y, hdr.h, fh);
    let cols = visible(hdr.x, hdr.w, fw);
    rows == 0 || ((rows - 1) * hdr.stride <= len && (cols == 0 || (rows - 1) * hdr.stride + (cols
        - 1) * 4 + 3 <= len))
}

fn seen(at: u32, n: u32, size: u32) -> (r: u32)
    ensures
        r == visible(at, n, size),
{
    if at >= size {
        0
    } else if n <= size - at {
        n
    } else {
        size - at
    }
}

/// Why a frame ends the connection.
#[derive(Debug, Clone, Copy, PartialEq, Eq, Structural)]
pub enum FrameError {
    /// Pixels of another format.
    Format { format: u32 },
    /// Fewer pixels than the frame announces.
    Short,
    /// A picture that does not fit into memory.
    TooLarge,
}

/// A number in lower-case hexadecimal, as short as it can be.
pub open spec fn hex_text(n: nat) -> Seq<char>
    decreases n,
{
    if n < 16 {
        seq![crate::text::hex_digit(n as int)]
    } else {
        hex_text(n / 16).push(crate::text::hex_digit((n % 16) as int))
    }
}

fn hex_str(n: u32) -> (s: String)
    ensures
        s@ == hex_text(n as nat),
    decreases n,
{
    let mut s: String = if n < 16 {
        owned("")
    } else {
        hex_str(n / 16)
    };
    let c: char = hex_digit_of((n % 16) as u8);
    push_char(&mut s, c);
    proof {
        reveal_strlit("");
        assert(s@ =~= hex_text(n as nat));
    }
    s
}

impl FrameError {
    pub fn message(&self) -> (s: String)
        ensures
            s@ == (match *self {
                FrameError::Format { format } => "guest sent format 0x"@ + hex_text(format as nat)
                    + "; this viewer only decodes XRGB8888"@,
                FrameError::Short => "malformed frame from the guest"@,
                FrameError::TooLarge => "frame too large"@,
            }),
    {
        match self {
            FrameError::Format { format } => cat3(
                "guest sent format 0x",
                hex_str(*format).as_str(),
                "; this viewer only decodes XRGB8888",
            ),
            FrameError::Short => owned("malformed frame from the guest"),
            FrameError::TooLarge => owned("frame too large"),
        }
    }
}

fn make_blank(w: u32, h: u32) -> (r: Option<Vec<u32>>)
    ensures
        match r {
            Some(v) => v@ == blank(w, h) && w * h <= usize::MAX,
            None => w * h > usize::MAX,
        },
{
    proof {
        crate::bytes::u32_product_fits(w, h);
    }
    let n: u64 = w as u64 * h as u64;
    if n > usize::MAX as u64 {
        return None;
    }
    let count: usize = n as usize;
    let mut v: Vec<u32> = Vec::new();
    let mut i: usize = 0;
    while i < count
        invariant
            i <= count,
            v@.len() == i,
            forall|j: int| 0 <= j < i ==> #[trigger] v@[j] == 0u32,
        decreases count - i,
    {
        v.push(0);
        i = i + 1;
    }
    assert(v@ =~= blank(w, h));
    Some(v)
}

/// How a frame changes the picture.
pub open spec fn framed(
    was: FrameBuf,
    hdr: FrameHeader,
    bytes: Seq<u8>,
    r: Result<(), FrameError>,
    now: FrameBuf,
) -> bool {
    let resized = hdr.x == 0 && hdr.y == 0 && (was.width != hdr.w || was.height != hdr.h);
    let w = if resized {
        hdr.w
    } else {
        was.width
    };
    let h = if resized {
        hdr.h
    } else {
        was.height
    };
    let before = if resized {
        blank(hdr.w, hdr.h)
    } else {
        was.pixels@
    };
    match r {
        Ok(()) => hdr.format == FORMAT_XRGB8888 && all_there(
            hdr,
            w,
            h,
            bytes.len() as int,
        ) && now.width == w && now.height == h && now.pixels@
            == blitted(before, w, hdr, bytes) && now.seq == hdr.seq && now.generation == (if was.generation == u64::MAX {
            0
        } else {
            was.generation + 1
        }),
        Err(FrameError::Format { format }) => hdr.format != FORMAT_XRGB8888 && format
            == hdr.format && now == was,
        Err(FrameError::TooLarge) => hdr.format == FORMAT_XRGB8888 && resized && w * h
            > usize::MAX && now == was,
        Err(FrameError::Short) => hdr.format == FORMAT_XRGB8888 && !all_there(
            hdr,
            w,
            h,
            bytes.len() as int,
        ) && now.width == w && now.height == h && now.pixels@
            == before && now.seq == was.seq && now.generation
            == was.generation,
    }
}

impl FrameBuf {
    /// As many pixels as the picture's size says.
    pub open spec fn valid(self) -> bool {
        self.pixels@.len() == self.width * self.height
    }

    /// No picture yet.
    pub fn new() -> (b: FrameBuf)
        ensures
            b.valid(),
            b.width == 0,
            b.height == 0,
            b.generation == 0,
            b.seq == 0,
    {
        FrameBuf { width: 0, height: 0, pixels: Vec::new(), generation: 0, seq: 0 }
    }

    /// The guest announced a size: a new one empties the picture.
    pub fn on_config(&mut self, width: u32, height: u32) -> (r: Result<(), FrameError>)
        requires
            old(self).valid(),
        ensures
            final(self).valid(),
            final(self).generation == old(self).generation,
            final(self).seq == old(self).seq,
            match r {
                Ok(()) => final(self).width == width && final(self).height == height && final(self).pixels@ == (if old(self).width == width && old(self).height == height {
                    old(self).pixels@
                } else {
                    blank(width, height)
                }),
                Err(e) => e == FrameError::TooLarge && *final(self) == *old(self) && width * height
                    > usize::MAX,
            },
    {
        if self.width != width || self.height != height {
            match make_blank(width, height) {
                Some(v) => {
                    self.width = width;
                    self.height = height;
                    self.pixels = v;
                },
                None => {
                    return Err(FrameError::TooLarge);
                },
            }
        }
        Ok(())
    }

    /// Take a control message. A configured surface sets the picture's size, and
    /// the window's title where it brings one; with the surface the window goes.
    pub fn on_control(&mut self, msg: &DisplayMsg) -> (r: Result<ControlDo, FrameError>)
        requires
            old(self).valid(),
        ensures
            final(self).valid(),
            final(self).generation == old(self).generation,
            final(self).seq == old(self).seq,
            match *msg {
                DisplayMsg::SurfaceConfig { surface, width, height, title } => match r {
                    Ok(d) => final(self).width == width && final(self).height == height
                        && final(self).pixels@ == (if old(self).width == width && old(self).height
                        == height {
                        old(self).pixels@
                    } else {
                        blank(width, height)
                    }) && crate::text::opt_view(d.title) == crate::text::opt_view(title) && !d.close,
                    Err(e) => e == FrameError::TooLarge && *final(self) == *old(self) && width
                        * height > usize::MAX,
                },
                DisplayMsg::SurfaceGone { surface } => r is Ok && r->Ok_0.title is None
                    && r->Ok_0.close && *final(self) == *old(self),
                _ => r is Ok && r->Ok_0.title is None && !r->Ok_0.close && *final(self) == *old(
                    self,
                ),
            },
    {
        match msg {
            DisplayMsg::SurfaceConfig { surface, width, height, title } => match self.on_config(
                *width,
                *height,
            ) {
                Ok(()) => Ok(ControlDo { title: opt_owned(title), close: false }),
                Err(e) => Err(e),
            },
            DisplayMsg::SurfaceGone { surface } => Ok(ControlDo { title: None, close: true }),
            _ => Ok(ControlDo { title: None, close: false }),
        }
    }

    /// Take a frame. One that starts in the corner defines the picture's size;
    /// any other one updates a part of it.
    pub fn on_frame(&mut self, hdr: &FrameHeader, bytes: &[u8]) -> (r: Result<(), FrameError>)
        requires
            old(self).valid(),
        ensures
            final(self).valid(),
            framed(*old(self), *hdr, bytes@, r, *final(self)),
    {
        if hdr.format != FORMAT_XRGB8888 {
            return Err(FrameError::Format { format: hdr.format });
        }
        if hdr.x == 0 && hdr.y == 0 && (self.width != hdr.w || self.height != hdr.h) {
            match make_blank(hdr.w, hdr.h) {
                Some(v) => {
                    self.width = hdr.w;
                    self.height = hdr.h;
                    self.pixels = v;
                },
                None => {
                    return Err(FrameError::TooLarge);
                },
            }
        }
        let rows: u32 = seen(hdr.y, hdr.h, self.height);
        let cols: u32 = seen(hdr.x, hdr.w, self.width);
        if rows > 0 {
            proof {
                assert(0 <= (rows - 1) * hdr.stride <= 0xffff_ffff * 0xffff_ffff) by (nonlinear_arith)
                    requires
                        1 <= rows <= 0xffff_ffff,
                        0 <= hdr.stride <= 0xffff_ffff,
                ;
            }
            let last: u128 = (rows - 1) as u128 * hdr.stride as u128;
            let len: u128 = bytes.len() as u128;
            if last > len || (cols > 0 && last + (cols - 1) as u128 * 4 + 3 > len) {
                return Err(FrameError::Short);
            }
        }
        self.blit(hdr, bytes, rows, cols);
        self.seq = hdr.seq;
        self.generation = if self.generation == 0xffff_ffff_ffff_ffff {
            0
        } else {
            self.generation + 1
        };
        Ok(())
    }

    fn blit(&mut self, hdr: &FrameHeader, bytes: &[u8], rows: u32, cols: u32)
        requires
            old(self).valid(),
            rows == visible(hdr.y, hdr.h, old(self).height),
            cols == visible(hdr.x, hdr.w, old(self).width),
            all_there(*hdr, old(self).width, old(self).height, bytes@.len() as int),
        ensures
            final(self).valid(),
            final(self).width == old(self).width,
            final(self).height == old(self).height,
            final(self).generation == old(self).generation,
            final(self).pixels@ == blitted(old(self).pixels@, old(self).width, *hdr, bytes@),
    {
        let ghost before = self.pixels@;
        let ghost want = blitted(before, self.width, *hdr, bytes@);
        let ghost fw = self.width as int;
        let mut row: u32 = 0;
        while row < rows
            invariant
                row <= rows,
                self.valid(),
                self.width == old(self).width,
                self.height == old(self).height,
                self.generation == old(self).generation,
                before == old(self).pixels@,
                want == blitted(before, self.width, *hdr, bytes@),
                fw == self.width,
                rows == visible(hdr.y, hdr.h, self.height),
                cols == visible(hdr.x, hdr.w, self.width),
                all_there(*hdr, self.width, self.height, bytes@.len() as int),
                self.pixels@.len() == before.len(),
                forall|i: int|
                    0 <= i < before.len() ==> #[trigger] self.pixels@[i] == (if fw > 0 && i / fw
                        < hdr.y + row {
                        want[i]
                    } else {
                        before[i]
                    }),
            decreases rows - row,
        {
            self.blit_row(hdr, bytes, row, cols, Ghost(before));
            row = row + 1;
        }
        proof {
            assert forall|i: int| 0 <= i < before.len() implies self.pixels@[i] == want[i] by {
                lemma_place(i, self.width, self.height);
            }
            assert(self.pixels@ =~= want);
        }
    }

    fn blit_row(
        &mut self,
        hdr: &FrameHeader,
        bytes: &[u8],
        row: u32,
        cols: u32,
        Ghost(before): Ghost<Seq<u32>>,
    )
        requires
            old(self).valid(),
            row < visible(hdr.y, hdr.h, old(self).height),
            cols == visible(hdr.x, hdr.w, old(self).width),
            all_there(*hdr, old(self).width, old(self).height, bytes@.len() as int),
            old(self).pixels@.len() == before.len(),
            forall|i: int|
                0 <= i < before.len() ==> #[trigger] old(self).pixels@[i] == (if old(self).width > 0
                    && i / (old(self).width as int) < hdr.y + row {
                    blitted(before, old(self).width, *hdr, bytes@)[i]
                } else {
                    before[i]
                }),
        ensures
            final(self).valid(),
            final(self).width == old(self).width,
            final(self).height == old(self).height,
            final(self).generation == old(self).generation,
            final(self).pixels@.len() == before.len(),
            forall|i: int|
                0 <= i < before.len() ==> #[trigger] final(self).pixels@[i] == (if old(self).width
                    > 0 && i / (old(self).width as int) < hdr.y + row + 1 {
                    blitted(before, old(self).width, *hdr, bytes@)[i]
                } else {
                    before[i]
                }),
    {
        let ghost want = blitted(before, self.width, *hdr, bytes@);
        let ghost fw = self.width as int;
        let ghost dy = hdr.y + row;
        let len: usize = bytes.len();
        let mut col: u32 = 0;
        while col < cols
            invariant
                col <= cols,
                len == bytes@.len(),
                self.valid(),
                self.width == old(self).width,
                self.height == old(self).height,
                self.generation == old(self).generation,
                want == blitted(before, self.width, *hdr, bytes@),
                fw == self.width,
                dy == hdr.y + row,
                row < visible(hdr.y, hdr.h, self.height),
                cols == visible(hdr.x, hdr.w, self.width),
                all_there(*hdr, self.width, self.height, bytes@.len() as int),
                self.pixels@.len() == before.len(),
                forall|i: int|
                    0 <= i < before.len() ==> #[trigger] self.pixels@[i] == (if fw > 0 && (i / fw
                        < dy || i / fw == dy && hdr.x <= i % fw < hdr.x + col) {
                        want[i]
                    } else {
                        before[i]
                    }),
            decreases cols - col,
        {
            let ghost dx = hdr.x + col;
            let ghost at = dy * fw + dx;
            proof {
                assert(dy < self.height && dx < fw);
                assert(0 <= at < self.width * self.height) by (nonlinear_arith)
                    requires
                        at == dy * fw + dx,
                        0 <= dy < self.height,
                        0 <= dx < fw,
                        fw == self.width,
                ;
                lemma_fundamental_div_mod_converse(at, fw, dy, dx);
                let rows = visible(hdr.y, hdr.h, self.height);
                assert(row * hdr.stride <= (rows - 1) * hdr.stride) by (nonlinear_arith)
                    requires
                        0 <= row <= rows - 1,
                        0 <= hdr.stride,
                ;
                assert(0 <= row * hdr.stride) by (nonlinear_arith)
                    requires
                        0 <= row,
                        0 <= hdr.stride,
                ;
                crate::bytes::u32_product_fits(row, hdr.stride);
                assert(dy * fw <= at) by (nonlinear_arith)
                    requires
                        at == dy * fw + dx,
                        0 <= dx,
                ;
                assert(0 <= dy * fw) by (nonlinear_arith)
                    requires
                        0 <= dy,
                        0 <= fw,
                ;
            }
            assert(row * hdr.stride + col * 4 + 3 <= len);
            let o: usize = row as usize * hdr.stride as usize + col as usize * 4;
            let px: u32 = bytes[o] as u32 + bytes[o + 1] as u32 * 0x100 + bytes[o + 2] as u32
                * 0x1_0000;
            let total: usize = self.pixels.len();
            assert(at < total);
            let place: usize = (hdr.y + row) as usize * self.width as usize + (hdr.x
                + col) as usize;
            let ghost was = self.pixels@;
            self.pixels.set(place, px);
            proof {
                assert(place == at);
                assert(covers(*hdr, dx, dy));
                assert(want[at] == source_pixel(*hdr, bytes@, col as int, row as int));
                assert forall|i: int| 0 <= i < before.len() implies #[trigger] self.pixels@[i] == (
                if fw > 0 && (i / fw < dy || i / fw == dy && hdr.x <= i % fw < hdr.x + col + 1) {
                    want[i]
                } else {
                    before[i]
                }) by {
                    if i != at {
                        assert(self.pixels@[i] == was[i]);
                        if i / fw == dy && i % fw == dx {
                            vstd::arithmetic::div_mod::lemma_fundamental_div_mod(i, fw);
                            assert(fw * dy == dy * fw) by (nonlinear_arith);
                            assert(i == at);
                        }
                    }
                }
            }
            col = col + 1;
        }
        proof {
            assert forall|i: int| 0 <= i < before.len() implies #[trigger] self.pixels@[i] == (if fw
                > 0 && i / fw < dy + 1 {
                want[i]
            } else {
                before[i]
            }) by {
                lemma_place(i, self.width, self.height);
                if i / fw == dy && !(hdr.x <= i % fw < hdr.x + cols) {
                    assert(!covers(*hdr, i % fw, dy));
                    assert(want[i] == before[i]);
                }
            }
        }
    }
}

proof fn lemma_place(i: int, w: u32, h: u32)
    requires
        0 <= i < w * h,
    ensures
        w > 0,
        0 <= i % (w as int) < w,
        0 <= i / (w as int) < h,
{
    assert(w > 0) by (nonlinear_arith)
        requires
            0 < w * h,
            w >= 0,
            h >= 0,
    ;
    vstd::arithmetic::div_mod::lemma_fundamental_div_mod(i, w as int);
    assert(0 <= i / (w as int) < h) by (nonlinear_arith)
        requires
            0 <= i < w * h,
            w > 0,
    ;
}

/// A frame that covers the whole picture is the picture, whatever was there
/// before.
pub proof fn a_full_frame_is_the_picture(
    a: Seq<u32>,
    b: Seq<u32>,
    hdr: FrameHeader,
    bytes: Seq<u8>,
)
    requires
        hdr.x == 0,
        hdr.y == 0,
        a.len() == hdr.w * hdr.h,
        b.len() == hdr.w * hdr.h,
    ensures
        blitted(a, hdr.w, hdr, bytes) == blitted(b, hdr.w, hdr, bytes),
{
    assert forall|i: int| 0 <= i < a.len() implies blitted(a, hdr.w, hdr, bytes)[i] == blitted(
        b,
        hdr.w,
        hdr,
        bytes,
    )[i] by {
        lemma_place(i, hdr.w, hdr.h);
        assert(covers(hdr, i % (hdr.w as int), i / (hdr.w as int)));
    }
    assert(blitted(a, hdr.w, hdr, bytes) =~= blitted(b, hdr.w, hdr, bytes));
}

/// A frame changes nothing outside of the rectangle that it covers.
pub proof fn the_rest_of_the_picture_stays(
    pixels: Seq<u32>,
    width: u32,
    hdr: FrameHeader,
    bytes: Seq<u8>,
    i: int,
)
    requires
        0 <= i < pixels.len(),
        !covers(hdr, i % (width as int), i / (width as int)),
    ensures
        blitted(pixels, width, hdr, bytes)[i] == pixels[i],
{
}

// The window

/// A button of the pointer.
#[derive(Debug, Clone, Copy, PartialEq, Eq, Structural)]
pub enum Button {
    Left,
    Right,
    Middle,
    Other,
}

/// What happens to the window.
#[derive(Debug, Clone, Copy, PartialEq, Eq, Structural)]
pub enum WindowEvent {
    CloseRequested,
    RedrawRequested,
    Resized { width: u32, height: u32 },
    /// The pointer is over the guest's picture, or beside it.
    Moved { x: i32, y: i32, inside: bool },
    Clicked { button: Button, pressed: bool },
    /// A scroll, in pixels.
    Scrolled { dx: Double, dy: Double },
    /// A key; zero where the guest has no such key.
    Key { code: u32, pressed: bool },
    FocusLost,
    Other,
}

/// What is done about it.
#[derive(Debug)]
pub struct WindowDo {
    /// What the guest is told, in this order.
    pub send: Vec<DisplayMsg>,
    pub redraw_now: bool,
    pub redraw_soon: bool,
    pub exit: bool,
}

/// The modifiers that are released where the window loses the focus, so that
/// the guest does not think that one is still held.
pub open spec fn modifiers() -> Seq<u32> {
    seq![29u32, 42u32, 54u32, 56u32, 97u32, 100u32, 125u32, 126u32]
}

/// What the guest is told of an event.
pub open spec fn told(e: WindowEvent) -> Seq<DisplayMsg> {
    match e {
        WindowEvent::CloseRequested => seq![DisplayMsg::Close { surface: 0 }],
        WindowEvent::Resized { width, height } => seq![
            DisplayMsg::Resize { surface: 0, width, height },
        ],
        WindowEvent::Moved { x, y, inside } => if inside {
            seq![DisplayMsg::PointerMotion { surface: 0, x, y }]
        } else {
            Seq::empty()
        },
        WindowEvent::Clicked { button, pressed } => match button {
            Button::Left => seq![DisplayMsg::PointerButton { surface: 0, button: 0x110, pressed }],
            Button::Right => seq![DisplayMsg::PointerButton { surface: 0, button: 0x111, pressed }],
            Button::Middle => seq![DisplayMsg::PointerButton { surface: 0, button: 0x112, pressed }],
            Button::Other => Seq::empty(),
        },
        WindowEvent::Scrolled { dx, dy } => seq![
            DisplayMsg::PointerAxis { surface: 0, dx, dy },
        ],
        WindowEvent::Key { code, pressed } => if code == 0 {
            Seq::empty()
        } else {
            seq![DisplayMsg::Key { surface: 0, keycode: code, pressed }]
        },
        WindowEvent::FocusLost => modifiers().map_values(
            |c: u32| DisplayMsg::Key { surface: 0, keycode: c, pressed: false },
        ),
        _ => Seq::empty(),
    }
}

fn released() -> (r: Vec<DisplayMsg>)
    ensures
        r@ == told(WindowEvent::FocusLost),
{
    let codes: [u32; 8] = [29, 42, 54, 56, 97, 100, 125, 126];
    let mut out: Vec<DisplayMsg> = Vec::new();
    let mut i: usize = 0;
    while i < 8
        invariant
            i <= 8,
            codes@ == modifiers(),
            out@.len() == i,
            forall|j: int|
                0 <= j < i ==> #[trigger] out@[j] == (DisplayMsg::Key {
                    surface: 0,
                    keycode: modifiers()[j],
                    pressed: false,
                }),
        decreases 8 - i,
    {
        out.push(DisplayMsg::Key { surface: 0, keycode: codes[i], pressed: false });
        i = i + 1;
    }
    assert(out@ =~= told(WindowEvent::FocusLost));
    out
}

/// React to an event of the window.
pub fn window_event(e: WindowEvent) -> (d: WindowDo)
    ensures
        d.send@ == told(e),
        d.exit == (e == WindowEvent::CloseRequested),
        d.redraw_now == (e == WindowEvent::RedrawRequested),
        d.redraw_soon == (e is Resized),
{
    let mut send: Vec<DisplayMsg> = Vec::new();
    let mut exit: bool = false;
    let mut redraw_now: bool = false;
    let mut redraw_soon: bool = false;
    match e {
        WindowEvent::CloseRequested => {
            send.push(DisplayMsg::Close { surface: 0 });
            exit = true;
        },
        WindowEvent::RedrawRequested => {
            redraw_now = true;
        },
        WindowEvent::Resized { width, height } => {
            send.push(DisplayMsg::Resize { surface: 0, width, height });
            redraw_soon = true;
        },
        WindowEvent::Moved { x, y, inside } => {
            if inside {
                send.push(DisplayMsg::PointerMotion { surface: 0, x, y });
            }
        },
        WindowEvent::Clicked { button, pressed } => {
            let code: u32 = match button {
                Button::Left => 0x110,
                Button::Right => 0x111,
                Button::Middle => 0x112,
                Button::Other => 0,
            };
            if code != 0 {
                send.push(DisplayMsg::PointerButton { surface: 0, button: code, pressed });
            }
        },
        WindowEvent::Scrolled { dx, dy } => {
            send.push(DisplayMsg::PointerAxis { surface: 0, dx, dy });
        },
        WindowEvent::Key { code, pressed } => {
            if code != 0 {
                send.push(DisplayMsg::Key { surface: 0, keycode: code, pressed });
            }
        },
        WindowEvent::FocusLost => {
            send = released();
        },
        WindowEvent::Other => {},
    }
    assert(send@ =~= told(e));
    WindowDo { send, redraw_now, redraw_soon, exit }
}

/// What is done where the connection has news.
#[derive(Debug)]
pub struct NewsDo {
    pub redraw: bool,
    /// What is said of a connection that ended.
    pub said: Option<String>,
    /// The window's new title.
    pub title: Option<String>,
}

/// React to news of the connection: a picture that is not the one drawn last is
/// drawn, and the end of the connection shows in the title.
pub fn user_event(generation: u64, last: u64, ended: &Option<String>, title: &str) -> (d: NewsDo)
    ensures
        d.redraw == (generation != last),
        crate::text::opt_view(d.said) == (match *ended {
            Some(why) => Some("nebula-display: "@ + why@),
            None => None,
        }),
        crate::text::opt_view(d.title) == (match *ended {
            Some(_) => Some(title@ + " — disconnected"@),
            None => None,
        }),
{
    match ended {
        Some(why) => NewsDo {
            redraw: generation != last,
            said: Some(cat2("nebula-display: ", why.as_str())),
            title: Some(cat2(title, " — disconnected")),
        },
        None => NewsDo { redraw: generation != last, said: None, title: None },
    }
}

/// Where the picture stands in the window.
#[derive(Debug, Clone, Copy, PartialEq, Eq, Structural)]
pub struct Placement {
    pub x: u32,
    pub y: u32,
    pub w: u32,
    pub h: u32,
}

/// A length of at least one pixel that fits into the window.
pub open spec fn drawn(scaled: u32, window: u32) -> int {
    let n = if scaled == 0 {
        1int
    } else {
        scaled as int
    };
    if n < window {
        n
    } else {
        window as int
    }
}

/// Centre a scaled picture in the window.
pub fn placement(window_w: u32, window_h: u32, scaled_w: u32, scaled_h: u32) -> (p: Placement)
    ensures
        p.w == drawn(scaled_w, window_w),
        p.h == drawn(scaled_h, window_h),
        p.x == (window_w - p.w) / 2,
        p.y == (window_h - p.h) / 2,
        p.x + p.w <= window_w,
        p.y + p.h <= window_h,
{
    let w: u32 = fit(scaled_w, window_w);
    let h: u32 = fit(scaled_h, window_h);
    Placement { x: (window_w - w) / 2, y: (window_h - h) / 2, w, h }
}

fn fit(scaled: u32, window: u32) -> (n: u32)
    ensures
        n == drawn(scaled, window),
{
    let n: u32 = if scaled == 0 {
        1
    } else {
        scaled
    };
    if n < window {
        n
    } else {
        window
    }
}

/// What is said where the guest cannot be reached.
pub fn unreachable(socket: &str, why: &str) -> (s: String)
    ensures
        s@ == "cannot reach the display agent at "@ + socket@ + ": "@ + why@
            + "\n(is the vessel running, and does its rootfs carry vessel-display?)"@,
{
    crate::text::cat5(
        "cannot reach the display agent at ",
        socket,
        ": ",
        why,
        "\n(is the vessel running, and does its rootfs carry vessel-display?)",
    )
}

/// What a window does reaches the guest as it happened: where the pointer is,
/// which button or key went down or up, how far was scrolled, how large the
/// window is, and that it is closed.
pub proof fn what_the_guest_is_told(x: i32, y: i32, w: u32, h: u32, code: u32, pressed: bool)
    ensures
        told(WindowEvent::CloseRequested) == seq![DisplayMsg::Close { surface: 0 }],
        told(WindowEvent::Resized { width: w, height: h }) == seq![
            DisplayMsg::Resize { surface: 0, width: w, height: h },
        ],
        told(WindowEvent::Moved { x, y, inside: true }) == seq![
            DisplayMsg::PointerMotion { surface: 0, x, y },
        ],
        told(WindowEvent::Moved { x, y, inside: false }).len() == 0,
        told(WindowEvent::Clicked { button: Button::Left, pressed }) == seq![
            DisplayMsg::PointerButton { surface: 0, button: 272, pressed },
        ],
        told(WindowEvent::Clicked { button: Button::Right, pressed }) == seq![
            DisplayMsg::PointerButton { surface: 0, button: 273, pressed },
        ],
        told(WindowEvent::Clicked { button: Button::Middle, pressed }) == seq![
            DisplayMsg::PointerButton { surface: 0, button: 274, pressed },
        ],
        code != 0 ==> told(WindowEvent::Key { code, pressed }) == seq![
            DisplayMsg::Key { surface: 0, keycode: code, pressed },
        ],
        told(WindowEvent::Key { code: 0, pressed }).len() == 0,
{
}

/// When the window loses the focus, both of each of Ctrl, Shift, Alt and Meta go
/// up, and nothing goes down.
pub proof fn modifiers_are_released(code: u32)
    requires
        code == 29 || code == 97 || code == 42 || code == 54 || code == 56 || code == 100 || code
            == 125 || code == 126,
    ensures
        told(WindowEvent::FocusLost).contains(
            DisplayMsg::Key { surface: 0, keycode: code, pressed: false },
        ),
        forall|i: int|
            0 <= i < told(WindowEvent::FocusLost).len() ==> (#[trigger] told(
                WindowEvent::FocusLost,
            )[i] matches DisplayMsg::Key { pressed, .. } && !pressed),
{
    let t = told(WindowEvent::FocusLost);
    let m = modifiers();
    assert(m[0] == 29 && m[1] == 42 && m[2] == 54 && m[3] == 56 && m[4] == 97 && m[5] == 100
        && m[6] == 125 && m[7] == 126);
    let i = if code == 29 {
        0int
    } else if code == 42 {
        1
    } else if code == 54 {
        2
    } else if code == 56 {
        3
    } else if code == 97 {
        4
    } else if code == 100 {
        5
    } else if code == 125 {
        6
    } else {
        7
    };
    assert(t[i] == (DisplayMsg::Key { surface: 0, keycode: code, pressed: false }));
}

/// The viewer shows the socket and the title that it is given, whichever comes
/// first, and stops at what it does not know.
pub proof fn what_the_viewer_is_given(socket: Seq<char>, title: Seq<char>, so_far: ArgsView)
    ensures
        args_of(seq!["--socket"@, socket, "--title"@, title], so_far) == ParsedView::Run(
            ArgsView { socket: Some(socket), title },
        ),
        args_of(seq!["--title"@, title, "--socket"@, socket], so_far) == ParsedView::Run(
            ArgsView { socket: Some(socket), title },
        ),
        args_of(seq!["--socket"@, socket], so_far) == ParsedView::Run(
            ArgsView { socket: Some(socket), ..so_far },
        ),
        args_of(seq![], so_far) == ParsedView::Run(so_far),
        args_of(seq!["--help"@], so_far) == ParsedView::Help,
        args_of(seq!["-h"@], so_far) == ParsedView::Help,
        title != "--socket"@ && title != "--title"@ && title != "-h"@ && title != "--help"@
            ==> args_of(seq![title], so_far) == ParsedView::Unexpected(title),
{
    reveal_strlit("--socket");
    reveal_strlit("--title");
    reveal_strlit("--help");
    reveal_strlit("-h");
    assert("--socket"@.len() == 8 && "--title"@.len() == 7 && "--help"@.len() == 6 && "-h"@.len()
        == 2);
    reveal_with_fuel(args_of, 4);
    let a = seq!["--socket"@, socket, "--title"@, title];
    let b = seq!["--title"@, title, "--socket"@, socket];
    assert(behind(a) =~= seq!["--title"@, title]);
    assert(behind(b) =~= seq!["--socket"@, socket]);
    assert(behind(seq!["--title"@, title]) =~= seq![]);
    assert(behind(seq!["--socket"@, socket]) =~= seq![]);
}

/// A frame that is taken is counted and leaves its number; what it covers is
/// its own, and what it does not is as before, unless it starts in the corner
/// with another size and so begins a new picture. A frame in another format
/// changes nothing, and none is counted that was not taken.
pub proof fn what_a_frame_does(
    was: FrameBuf,
    hdr: FrameHeader,
    bytes: Seq<u8>,
    r: Result<(), FrameError>,
    now: FrameBuf,
    i: int,
)
    requires
        framed(was, hdr, bytes, r, now),
        was.valid(),
        now.valid(),
        0 <= i < now.pixels@.len(),
    ensures
        r is Ok ==> hdr.format == FORMAT_XRGB8888 && now.seq == hdr.seq && now.generation
            != was.generation,
        r is Err ==> now.seq == was.seq && now.generation == was.generation,
        hdr.format != FORMAT_XRGB8888 ==> r is Err && now == was,
        hdr.x == 0 && hdr.y == 0 && r is Ok ==> now.width == hdr.w && now.height == hdr.h,
        hdr.x != 0 || hdr.y != 0 ==> now.width == was.width && now.height == was.height,
        r is Ok ==> ({
            let x = i % (now.width as int);
            let y = i / (now.width as int);
            if hdr.x <= x < hdr.x + hdr.w && hdr.y <= y < hdr.y + hdr.h {
                let at = (y - hdr.y) * hdr.stride + (x - hdr.x) * 4;
                now.pixels@[i] == (bytes[at] + bytes[at + 1] * 0x100 + bytes[at + 2]
                    * 0x1_0000) as u32
            } else {
                now.width == was.width && now.height == was.height && now.pixels@[i]
                    == was.pixels@[i]
            }
        }),
{
    if r is Ok && !(now.width == was.width && now.height == was.height) {
        let w = now.width as int;
        let h = now.height as int;
        assert(hdr.x == 0 && hdr.y == 0 && w == hdr.w && h == hdr.h);
        assert(w > 0) by (nonlinear_arith)
            requires
                0 <= i < w * h,
                w >= 0,
        ;
        assert(0 <= i % w < w);
        assert(0 <= i / w < h) by (nonlinear_arith)
            requires
                0 <= i < w * h,
                w > 0,
        ;
    }
}

/// Only a guest that answers the greeting, with the right word and version, is
/// looked at; its frames come from where it says.
pub proof fn whose_frames_are_shown(
    answer: Option<(u32, DisplayMsg)>,
    shown: Seq<char>,
    r: Result<String, AckError>,
)
    requires
        ack_checked(answer, shown, r),
    ensures
        r is Ok <==> (answer matches Some((kind, DisplayMsg::HelloAck { magic, version, .. })) && kind
            == 1 && magic == 0x4e42_4453 && version == 1),
        answer matches Some((_, DisplayMsg::HelloAck { source, .. })) ==> r is Ok ==> r->Ok_0@
            == source@,
        answer is None ==> r is Err && r->Err_0 is Closed,
{
}

} // verus!

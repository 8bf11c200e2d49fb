//! The guest's half of the display bridge: the handshake, the frames of a
//! source, and the host's input as events of a virtual device.

use crate::bytes::{le32, push_le32};
use crate::display::{
    DisplayMsg, FrameHeader, ShmHeader, DISPLAY_MAGIC, DISPLAY_PROTO_VERSION, FORMAT_XRGB8888,
    KIND_CONTROL, SHM_HEADER_LEN, SHM_MAGIC,
};
use crate::text::{cat2, cat4, decimal_str, owned, parse_u32};
use vstd::arithmetic::div_mod::lemma_fundamental_div_mod_converse;
use vstd::prelude::*;

verus! {

// The handshake

/// Why a connection is refused.
#[derive(Debug, Clone, Copy, PartialEq, Eq, Structural)]
pub enum HelloError {
    NotControl,
    Version { version: u32 },
    NoHello,
}

impl HelloError {
    pub fn message(&self) -> (s: String)
        ensures
            s@ == (match *self {
                HelloError::NotControl => "display: first message was not control"@,
                HelloError::Version { version } => "display: protocol version "@
                    + crate::text::decimal(version as nat) + ", we speak "@
                    + crate::text::decimal(DISPLAY_PROTO_VERSION as nat),
                HelloError::NoHello => "display: expected Hello"@,
            }),
    {
        match self {
            HelloError::NotControl => owned("display: first message was not control"),
            HelloError::Version { version } => cat4(
                "display: protocol version ",
                decimal_str(*version as u64).as_str(),
                ", we speak ",
                decimal_str(DISPLAY_PROTO_VERSION as u64).as_str(),
            ),
            HelloError::NoHello => owned("display: expected Hello"),
        }
    }
}

/// What the first message of a host is worth.
pub open spec fn hello_checked(kind: u32, msg: Option<DisplayMsg>) -> Result<(), HelloError> {
    if kind != KIND_CONTROL {
        Err(HelloError::NotControl)
    } else {
        match msg {
            Some(DisplayMsg::Hello { magic, version }) => if magic == DISPLAY_MAGIC && version
                == DISPLAY_PROTO_VERSION {
                Ok(())
            } else {
                Err(HelloError::Version { version })
            },
            _ => Err(HelloError::NoHello),
        }
    }
}

/// Check the first message of a host; none where it is no control message at
/// all.
pub fn check_hello(kind: u32, msg: &Option<DisplayMsg>) -> (r: Result<(), HelloError>)
    ensures
        r == hello_checked(kind, *msg),
{
    if kind != KIND_CONTROL {
        return Err(HelloError::NotControl);
    }
    match msg {
        Some(DisplayMsg::Hello { magic, version }) => if *magic == DISPLAY_MAGIC && *version
            == DISPLAY_PROTO_VERSION {
            Ok(())
        } else {
            Err(HelloError::Version { version: *version })
        },
        _ => Err(HelloError::NoHello),
    }
}

/// The answer to a host that was accepted.
pub fn hello_ack(source: &str) -> (m: DisplayMsg)
    ensures
        m matches DisplayMsg::HelloAck { magic, version, source: s } && magic == DISPLAY_MAGIC
            && version == DISPLAY_PROTO_VERSION && s@ == source@,
{
    DisplayMsg::HelloAck {
        magic: DISPLAY_MAGIC,
        version: DISPLAY_PROTO_VERSION,
        source: owned(source),
    }
}

// Input

/// An event of the virtual device.
#[derive(Debug, Clone, Copy, PartialEq, Eq, Structural)]
pub struct InputEvent {
    pub kind: u16,
    pub code: u16,
    pub value: i32,
}

pub const EV_SYN: u16 = 0x00;

pub const EV_KEY: u16 = 0x01;

pub const EV_REL: u16 = 0x02;

pub const EV_ABS: u16 = 0x03;

pub const SYN_REPORT: u16 = 0;

pub const REL_WHEEL_HI_RES: u16 = 0x0b;

pub const REL_HWHEEL_HI_RES: u16 = 0x0c;

pub const ABS_X: u16 = 0x00;

pub const ABS_Y: u16 = 0x01;

/// The highest key that the device has; beyond the keyboard it covers the
/// pointer's buttons.
pub const KEY_MAX_ENABLED: u16 = 0x2ff;

/// The largest coordinate of the device. Window coordinates are scaled into
/// this range, so that a new resolution needs no new device.
pub const ABS_RANGE: i32 = 65535;

/// The end of a group of events.
pub open spec fn sync_event() -> InputEvent {
    InputEvent { kind: EV_SYN, code: SYN_REPORT, value: 0 }
}

/// A coordinate in the device's range. The division rounds toward zero, and
/// the quotient is cut to 32 bits before it is bounded.
pub open spec fn scaled(v: i32, size: u32) -> i32 {
    let n = if size == 0 {
        1int
    } else {
        size as int
    };
    let q = if v >= 0 {
        v * ABS_RANGE / n
    } else {
        -((-v) * ABS_RANGE / n)
    };
    bounded(q as i32)
}

pub open spec fn bounded(v: i32) -> i32 {
    if v < 0 {
        0
    } else if v > ABS_RANGE {
        ABS_RANGE
    } else {
        v
    }
}

fn scale(v: i32, size: u32) -> (r: i32)
    ensures
        r == scaled(v, size),
{
    let n: i64 = if size == 0 {
        1
    } else {
        size as i64
    };
    let m: i64 = if v >= 0 {
        v as i64
    } else {
        -(v as i64)
    };
    assert(0 <= m <= 0x8000_0000);
    let p: i64 = m * 65535;
    proof {
        assert(0 <= p / n <= p) by (nonlinear_arith)
            requires
                p >= 0,
                n >= 1,
        ;
    }
    let d: i64 = p / n;
    let q: i64 = if v >= 0 {
        d
    } else {
        -d
    };
    let c: i32 = #[verifier::truncate]
    (q as i32);
    if c < 0 {
        0
    } else if c > ABS_RANGE {
        ABS_RANGE
    } else {
        c
    }
}

/// The events of a pointer's move.
pub open spec fn motion_events(x: i32, y: i32, sw: u32, sh: u32) -> Seq<InputEvent> {
    seq![
        InputEvent { kind: EV_ABS, code: ABS_X, value: scaled(x, sw) },
        InputEvent { kind: EV_ABS, code: ABS_Y, value: scaled(y, sh) },
        sync_event(),
    ]
}

/// The events of a key or a button; none of one that the device does not have.
pub open spec fn key_events(code: u32, pressed: bool) -> Seq<InputEvent> {
    if code == 0 || code > KEY_MAX_ENABLED {
        Seq::empty()
    } else {
        seq![
            InputEvent {
                kind: EV_KEY,
                code: code as u16,
                value: if pressed {
                    1
                } else {
                    0
                },
            },
            sync_event(),
        ]
    }
}

/// How far a scroll goes in the kernel's unit, 1/120 of a notch: about 53 pixels
/// are a notch.
#[derive(Debug, Clone, Copy, PartialEq, Eq, Structural)]
pub struct Units {
    pub up: i32,
    pub right: i32,
}

/// The events of a scroll; a direction that does not move has none.
pub open spec fn scroll_events(wheel: i32, hwheel: i32) -> Seq<InputEvent> {
    (if wheel != 0 {
        seq![InputEvent { kind: EV_REL, code: REL_WHEEL_HI_RES, value: wheel }]
    } else {
        Seq::empty()
    }) + (if hwheel != 0 {
        seq![InputEvent { kind: EV_REL, code: REL_HWHEEL_HI_RES, value: hwheel }]
    } else {
        Seq::empty()
    }) + (if wheel != 0 || hwheel != 0 {
        seq![sync_event()]
    } else {
        Seq::empty()
    })
}

/// What a message makes the device do; of a scroll, whose pixels are rounded to
/// `units`.
pub open spec fn events_of(msg: DisplayMsg, units: Units, sw: u32, sh: u32) -> Seq<InputEvent> {
    match msg {
        DisplayMsg::PointerMotion { x, y, .. } => motion_events(x, y, sw, sh),
        DisplayMsg::PointerButton { button, pressed, .. } => key_events(button, pressed),
        DisplayMsg::PointerAxis { .. } => scroll_events(units.up, units.right),
        DisplayMsg::Key { keycode, pressed, .. } => key_events(keycode, pressed),
        _ => Seq::empty(),
    }
}

fn key(code: u32, pressed: bool) -> (r: Vec<InputEvent>)
    ensures
        r@ == key_events(code, pressed),
{
    let mut out: Vec<InputEvent> = Vec::new();
    if code == 0 || code > KEY_MAX_ENABLED as u32 {
        assert(out@ =~= key_events(code, pressed));
        return out;
    }
    let value: i32 = if pressed {
        1
    } else {
        0
    };
    out.push(InputEvent { kind: EV_KEY, code: code as u16, value });
    out.push(InputEvent { kind: EV_SYN, code: SYN_REPORT, value: 0 });
    assert(out@ =~= key_events(code, pressed));
    out
}

/// The events that a host's message makes on the device, on a surface of this
/// size. Of a scroll, `units` is the length, rounded from its pixels.
pub fn dispatch(msg: &DisplayMsg, units: Units, sw: u32, sh: u32) -> (r: Vec<InputEvent>)
    ensures
        r@ == events_of(*msg, units, sw, sh),
{
    let mut out: Vec<InputEvent> = Vec::new();
    match msg {
        DisplayMsg::PointerMotion { surface, x, y } => {
            out.push(InputEvent { kind: EV_ABS, code: ABS_X, value: scale(*x, sw) });
            out.push(InputEvent { kind: EV_ABS, code: ABS_Y, value: scale(*y, sh) });
            out.push(InputEvent { kind: EV_SYN, code: SYN_REPORT, value: 0 });
            assert(out@ =~= motion_events(*x, *y, sw, sh));
        },
        DisplayMsg::PointerButton { surface, button, pressed } => {
            return key(*button, *pressed);
        },
        DisplayMsg::PointerAxis { surface, dx, dy } => {
            if units.up != 0 {
                out.push(InputEvent { kind: EV_REL, code: REL_WHEEL_HI_RES, value: units.up });
            }
            if units.right != 0 {
                out.push(InputEvent { kind: EV_REL, code: REL_HWHEEL_HI_RES, value: units.right });
            }
            if units.up != 0 || units.right != 0 {
                out.push(InputEvent { kind: EV_SYN, code: SYN_REPORT, value: 0 });
            }
            assert(out@ =~= scroll_events(units.up, units.right));
        },
        DisplayMsg::Key { surface, keycode, pressed } => {
            return key(*keycode, *pressed);
        },
        _ => {
            assert(out@ =~= Seq::empty());
        },
    }
    out
}

/// Every group of events ends with the mark that closes it, and every
/// coordinate lies in the range that the device announced.
pub proof fn events_are_well_formed(msg: DisplayMsg, units: Units, sw: u32, sh: u32, i: int)
    ensures
        ({
            let ev = events_of(msg, units, sw, sh);
            &&& ev.len() > 0 ==> ev.last() == sync_event()
            &&& 0 <= i < ev.len() && ev[i].kind == EV_ABS ==> 0 <= ev[i].value <= ABS_RANGE
            &&& 0 <= i < ev.len() && ev[i].kind == EV_KEY ==> 1 <= ev[i].code <= KEY_MAX_ENABLED
        }),
{
    match msg {
        DisplayMsg::PointerButton { button, pressed, .. } => {
            if button <= KEY_MAX_ENABLED {
                assert(button as u16 == button);
            }
        },
        DisplayMsg::Key { keycode, pressed, .. } => {
            if keycode <= KEY_MAX_ENABLED {
                assert(keycode as u16 == keycode);
            }
        },
        _ => {},
    }
}

/// An event as the device takes it: no time, then kind, code and value.
pub open spec fn event_bytes(e: InputEvent) -> Seq<u8> {
    Seq::new(16, |i: int| 0u8) + seq![
        (e.kind % 256) as u8,
        (e.kind / 256) as u8,
        (e.code % 256) as u8,
        (e.code / 256) as u8,
    ] + le32(e.value as u32)
}

pub fn encode_event(e: &InputEvent) -> (out: Vec<u8>)
    ensures
        out@ == event_bytes(*e),
{
    let mut out: Vec<u8> = Vec::new();
    let mut i: usize = 0;
    while i < 16
        invariant
            i <= 16,
            out@.len() == i,
            forall|j: int| 0 <= j < i ==> #[trigger] out@[j] == 0u8,
        decreases 16 - i,
    {
        out.push(0);
        i = i + 1;
    }
    assert(out@ =~= Seq::new(16, |i: int| 0u8));
    out.push((e.kind % 256) as u8);
    out.push((e.kind / 256) as u8);
    out.push((e.code % 256) as u8);
    out.push((e.code / 256) as u8);
    let v: u32 = #[verifier::truncate]
    (e.value as u32);
    push_le32(&mut out, v);
    assert(out@ =~= event_bytes(*e));
    out
}

/// What a message from the host comes to.
#[derive(Debug)]
pub enum InputDo {
    Nothing,
    Inject(Vec<InputEvent>),
    /// The source should follow the window.
    Resize { width: u32, height: u32 },
    /// The host is gone.
    Close,
}

/// The size of the surface that the host's coordinates are on.
#[derive(Debug, Clone, Copy, PartialEq, Eq, Structural)]
pub struct InputPump {
    pub sw: u32,
    pub sh: u32,
}

pub open spec fn at_least_one(n: u32) -> u32 {
    if n == 0 {
        1
    } else {
        n
    }
}

impl InputPump {
    pub fn new() -> (p: InputPump)
        ensures
            p.sw == 1,
            p.sh == 1,
    {
        InputPump { sw: 1, sh: 1 }
    }

    /// Take a message; none stands for a host that is gone. Of a scroll, `units`
    /// is the length, rounded from its pixels.
    pub fn on(&mut self, msg: &Option<DisplayMsg>, units: Units) -> (d: InputDo)
        ensures
            match *msg {
                None => d is Close && *final(self) == *old(self),
                Some(DisplayMsg::Close { .. }) => d is Close && *final(self) == *old(self),
                Some(DisplayMsg::Resize { width, height, .. }) => d == (InputDo::Resize {
                    width,
                    height,
                }) && final(self).sw == at_least_one(width) && final(self).sh == at_least_one(
                    height,
                ),
                Some(m) => *final(self) == *old(self) && (match d {
                    InputDo::Inject(ev) => ev@ == events_of(m, units, old(self).sw, old(self).sh)
                        && ev@.len() > 0,
                    InputDo::Nothing => events_of(m, units, old(self).sw, old(self).sh).len() == 0,
                    _ => false,
                }),
            },
    {
        match msg {
            None => InputDo::Close,
            Some(DisplayMsg::Close { surface }) => InputDo::Close,
            Some(DisplayMsg::Resize { surface, width, height }) => {
                self.sw = if *width == 0 {
                    1
                } else {
                    *width
                };
                self.sh = if *height == 0 {
                    1
                } else {
                    *height
                };
                InputDo::Resize { width: *width, height: *height }
            },
            Some(m) => {
                let ev: Vec<InputEvent> = dispatch(m, units, self.sw, self.sh);
                if ev.len() == 0 {
                    InputDo::Nothing
                } else {
                    InputDo::Inject(ev)
                }
            },
        }
    }
}

// Frames

/// The host that is served. There is one at a time: a host that connects takes
/// over, so that a connection gone stale cannot keep the port.
#[derive(Debug, Clone, Copy, PartialEq, Eq)]
pub struct Hosts {
    pub served: Option<u64>,
}

impl Hosts {
    pub fn new() -> (h: Hosts)
        ensures
            h.served is None,
    {
        Hosts { served: None }
    }

    /// A host connected, under a number of its own; the one to disconnect, if
    /// another was served.
    pub fn connected(&mut self, id: u64) -> (gone: Option<u64>)
        ensures
            final(self).served == Some(id),
            gone == (if old(self).served == Some(id) {
                None
            } else {
                old(self).served
            }),
    {
        let gone: Option<u64> = match self.served {
            Some(s) => if s == id {
                None
            } else {
                Some(s)
            },
            None => None,
        };
        self.served = Some(id);
        gone
    }

    /// A connection ended. The end of one that was taken over changes nothing.
    pub fn ended(&mut self, id: u64)
        ensures
            final(self).served == (if old(self).served == Some(id) {
                None
            } else {
                old(self).served
            }),
    {
        match self.served {
            Some(s) => if s == id {
                self.served = None;
            },
            None => {},
        }
    }

    /// Whether a connection is still the one that is served.
    pub fn serves(&self, id: u64) -> (r: bool)
        ensures
            r == (self.served == Some(id)),
    {
        match self.served {
            Some(s) => s == id,
            None => false,
        }
    }
}

/// The geometry of a frame.
#[derive(Debug, Clone, Copy, PartialEq, Eq, Structural)]
pub struct Frame {
    pub width: u32,
    pub height: u32,
    pub stride: u32,
    pub format: u32,
}

/// What the frame loop remembers: the next number, and the size that the host
/// was told last.
#[derive(Debug, Clone, Copy, PartialEq, Eq)]
pub struct FrameLoop {
    pub seq: u32,
    pub told: Option<(u32, u32)>,
}

/// What is done with a frame.
#[derive(Debug)]
pub struct FrameDo {
    /// The host is told of a new size first.
    pub config: Option<DisplayMsg>,
    /// The frame goes out under this header; none where the source's buffer
    /// does not fit its own geometry.
    pub send: Option<FrameHeader>,
}

/// The header of a frame.
pub open spec fn header_of(f: Frame, seq: u32) -> FrameHeader {
    FrameHeader {
        surface: 0,
        seq,
        x: 0,
        y: 0,
        w: f.width,
        h: f.height,
        stride: f.stride,
        format: f.format,
    }
}

/// What is done with a frame of so many bytes.
pub open spec fn frame_taken(was: FrameLoop, f: Frame, bytes: usize, d: FrameDo, now: FrameLoop) -> bool {
    &&& now.told == Some((f.width, f.height))
    &&& match d.config {
        Some(m) => was.told != Some((f.width, f.height)) && (m matches
            DisplayMsg::SurfaceConfig { surface, width, height, title } && surface == 0
            && width == f.width && height == f.height && title is None),
        None => was.told == Some((f.width, f.height)),
    }
    &&& d.send == (if bytes == f.stride * f.height {
        Some(header_of(f, was.seq))
    } else {
        None
    })
    &&& now.seq == (if bytes != f.stride * f.height {
        was.seq as int
    } else if was.seq == u32::MAX {
        0
    } else {
        was.seq + 1
    })
}

impl FrameLoop {
    pub fn new() -> (l: FrameLoop)
        ensures
            l == (FrameLoop { seq: 0, told: None }),
    {
        FrameLoop { seq: 0, told: None }
    }

    /// Take a frame of so many bytes from the source.
    pub fn on(&mut self, f: &Frame, bytes: usize) -> (d: FrameDo)
        ensures
            frame_taken(*old(self), *f, bytes, d, *final(self)),
    {
        let same: bool = match self.told {
            Some((w, h)) => w == f.width && h == f.height,
            None => false,
        };
        let config: Option<DisplayMsg> = if same {
            None
        } else {
            Some(
                DisplayMsg::SurfaceConfig {
                    surface: 0,
                    width: f.width,
                    height: f.height,
                    title: None,
                },
            )
        };
        self.told = Some((f.width, f.height));
        proof {
            crate::bytes::u32_product_fits(f.stride, f.height);
        }
        if bytes as u64 != f.stride as u64 * f.height as u64 {
            return FrameDo { config, send: None };
        }
        let hdr = FrameHeader {
            surface: 0,
            seq: self.seq,
            x: 0,
            y: 0,
            w: f.width,
            h: f.height,
            stride: f.stride,
            format: f.format,
        };
        self.seq = if self.seq == 0xffff_ffff {
            0
        } else {
            self.seq + 1
        };
        FrameDo { config, send: Some(hdr) }
    }
}

/// A positive number from the environment, or the default.
pub open spec fn env_number(value: Option<Seq<char>>, default: u32) -> nat {
    match value {
        Some(v) => match crate::text::parse_dec(v, u32::MAX as nat) {
            Some(k) => if k > 0 {
                k
            } else {
                default as nat
            },
            None => default as nat,
        },
        None => default as nat,
    }
}

pub fn env_u32(value: &Option<String>, default: u32) -> (n: u32)
    ensures
        n == env_number(crate::text::opt_view(*value), default),
{
    match value {
        Some(v) => match parse_u32(v.as_str()) {
            Some(k) => if k > 0 {
                k
            } else {
                default
            },
            None => default,
        },
        None => default,
    }
}

/// Where frames come from.
#[derive(Debug)]
pub enum Source {
    Shm(ShmSource),
    Test(TestPattern),
}

/// A compositor's shared memory where one is named, else the test pattern, so
/// that a fresh guest shows something.
pub fn make_source(shm: &Option<String>, width: &Option<String>, height: &Option<String>) -> (s: Source)
    ensures
        match s {
            Source::Shm(m) => *shm is Some && (*shm)->0@.len() > 0 && m.path@ == (*shm)->0@
                && m.last_seq == 0,
            Source::Test(t) => (*shm is None || (*shm)->0@.len() == 0) && t.tick == 0 && t.width
                == env_number(crate::text::opt_view(*width), 1280) && t.height == env_number(
                crate::text::opt_view(*height),
                800,
            ),
        },
{
    match shm {
        Some(p) => {
            proof {
                reveal_strlit("");
                if p@.len() == 0 {
                    assert(p@ =~= ""@);
                }
            }
            if !crate::text::same(p.as_str(), "") {
                return Source::Shm(ShmSource { path: owned(p.as_str()), last_seq: 0 });
            }
        },
        None => {},
    }
    Source::Test(TestPattern::new(env_u32(width, 1280), env_u32(height, 800)))
}

// The test pattern

/// An animated gradient with a box that moves one step per frame.
#[derive(Debug, Clone, Copy, PartialEq, Eq, Structural)]
pub struct TestPattern {
    pub width: u32,
    pub height: u32,
    pub tick: u32,
}

/// A side of the box, on a surface of this size.
pub open spec fn box_side(size: u32) -> u32 {
    if size / 8 > 8 {
        size / 8
    } else {
        8
    }
}

/// How far the box can go.
pub open spec fn box_room(size: u32) -> int {
    if size > box_side(size) + 1 {
        size - box_side(size)
    } else {
        1
    }
}

/// Where the box stands.
pub open spec fn box_at(tick: u32, step: int, size: u32) -> int {
    (tick * step) % 0x1_0000_0000 % box_room(size)
}

/// A pixel of the pattern: blue, green and red, and an empty byte.
pub open spec fn pattern_pixel(p: TestPattern, x: int, y: int) -> Seq<u8> {
    let bx = box_at(p.tick, 3, p.width);
    let by = box_at(p.tick, 2, p.height);
    if bx <= x < bx + box_side(p.width) && by <= y < by + box_side(p.height) {
        seq![0xffu8, 0xffu8, 0xffu8, 0u8]
    } else {
        seq![
            (p.tick * 2 % 256) as u8,
            (y * 255 / p.height as int) as u8,
            (x * 255 / p.width as int) as u8,
            0u8,
        ]
    }
}

/// The first pixels of the pattern, row by row.
pub open spec fn pattern_bytes(p: TestPattern, n: int) -> Seq<u8>
    decreases n,
{
    if n <= 0 {
        Seq::empty()
    } else {
        pattern_bytes(p, n - 1) + pattern_pixel(
            p,
            (n - 1) % (p.width as int),
            (n - 1) / (p.width as int),
        )
    }
}

proof fn lemma_pattern_len(p: TestPattern, n: int)
    requires
        n >= 0,
    ensures
        pattern_bytes(p, n).len() == 4 * n,
    decreases n,
{
    if n > 0 {
        lemma_pattern_len(p, n - 1);
    }
}

impl TestPattern {
    pub fn new(width: u32, height: u32) -> (p: TestPattern)
        ensures
            p == (TestPattern { width, height, tick: 0 }),
    {
        TestPattern { width, height, tick: 0 }
    }

    pub fn name(&self) -> (s: String)
        ensures
            s@ == "test-pattern "@ + crate::text::decimal(self.width as nat) + "x"@
                + crate::text::decimal(self.height as nat),
    {
        cat4(
            "test-pattern ",
            decimal_str(self.width as u64).as_str(),
            "x",
            decimal_str(self.height as u64).as_str(),
        )
    }

    /// Follow the host's window, unless it is empty.
    pub fn resize(&mut self, width: u32, height: u32)
        ensures
            *final(self) == (if width > 0 && height > 0 {
                TestPattern { width, height, ..*old(self) }
            } else {
                *old(self)
            }),
    {
        if width > 0 && height > 0 {
            self.width = width;
            self.height = height;
        }
    }

    /// The next frame; none where a row or the surface has more bytes than 32
    /// bits count.
    pub fn next_frame(&mut self) -> (r: Option<(Frame, Vec<u8>)>)
        ensures
            match r {
                Some((f, buf)) => fits(*old(self)) && f == (Frame {
                    width: old(self).width,
                    height: old(self).height,
                    stride: (old(self).width * 4) as u32,
                    format: FORMAT_XRGB8888,
                }) && buf@ == pattern_bytes(*old(self), old(self).width * old(self).height)
                    && buf@.len() == f.stride * f.height && final(self).width == old(self).width
                    && final(self).height == old(self).height && final(self).tick == (if old(self).tick == u32::MAX {
                    0
                } else {
                    old(self).tick + 1
                }),
                None => !fits(*old(self)) && *final(self) == *old(self),
            },
    {
        let w: u32 = self.width;
        let h: u32 = self.height;
        proof {
            crate::bytes::u32_product_fits(w, h);
        }
        let count: u64 = w as u64 * h as u64;
        if w > 0x3fff_ffff || count > 0x3fff_ffff {
            return None;
        }
        let p: TestPattern = *self;
        let buf: Vec<u8> = fill(&p, count);
        let stride: u32 = w * 4;
        proof {
            lemma_pattern_len(p, w * h);
            assert((w * 4) * h == 4 * (w * h)) by (nonlinear_arith);
        }
        self.tick = if self.tick == 0xffff_ffff {
            0
        } else {
            self.tick + 1
        };
        Some((Frame { width: w, height: h, stride, format: FORMAT_XRGB8888 }, buf))
    }
}

/// Whether the bytes of a row, and of the surface, are counted by 32 bits.
pub open spec fn fits(p: TestPattern) -> bool {
    p.width * 4 <= u32::MAX && p.width * p.height * 4 <= u32::MAX
}

fn side(size: u32) -> (n: u32)
    ensures
        n == box_side(size),
{
    if size / 8 > 8 {
        size / 8
    } else {
        8
    }
}

fn box_start(tick: u32, step: u64, size: u32) -> (n: u64)
    requires
        step <= 3,
    ensures
        n == box_at(tick, step as int, size),
        n <= u32::MAX,
{
    let b: u32 = side(size);
    let room: u64 = if size as u64 > b as u64 + 1 {
        (size - b) as u64
    } else {
        1
    };
    proof {
        assert(tick * step <= 0xffff_ffff * 3) by (nonlinear_arith)
            requires
                tick <= 0xffff_ffff,
                step <= 3,
        ;
    }
    tick as u64 * step % 0x1_0000_0000 % room
}

/// All pixels of the pattern, row by row.
fn fill(p: &TestPattern, count: u64) -> (out: Vec<u8>)
    requires
        count == p.width * p.height,
        count <= 0x3fff_ffff,
    ensures
        out@ == pattern_bytes(*p, count as int),
{
    let w: u64 = p.width as u64;
    let h: u64 = p.height as u64;
    let bx: u64 = box_start(p.tick, 3, p.width);
    let by: u64 = box_start(p.tick, 2, p.height);
    let bw: u64 = side(p.width) as u64;
    let bh: u64 = side(p.height) as u64;
    let blue: u8 = (p.tick as u64 * 2 % 256) as u8;
    let mut out: Vec<u8> = Vec::new();
    let mut x: u64 = 0;
    let mut y: u64 = 0;
    let mut n: u64 = 0;
    assert(out@ =~= pattern_bytes(*p, 0));
    proof {
        if count > 0 {
            assert(w > 0 && h > 0) by (nonlinear_arith)
                requires
                    w * h > 0,
                    w >= 0,
                    h >= 0,
            ;
        }
    }
    while n < count
        invariant
            n <= count,
            count == w * h,
            count <= 0x3fff_ffff,
            w == p.width,
            h == p.height,
            n == y * w + x,
            n < count ==> x < w && y < h,
            bx == box_at(p.tick, 3, p.width),
            by == box_at(p.tick, 2, p.height),
            bx <= u32::MAX,
            by <= u32::MAX,
            bw == box_side(p.width),
            bh == box_side(p.height),
            blue == (p.tick * 2 % 256) as u8,
            out@ == pattern_bytes(*p, n as int),
        decreases count - n,
    {
        proof {
            lemma_fundamental_div_mod_converse(n as int, w as int, y as int, x as int);
            assert(x * 255 / (w as int) < 255) by (nonlinear_arith)
                requires
                    x < w,
                    x >= 0,
            ;
            assert(y * 255 / (h as int) < 255) by (nonlinear_arith)
                requires
                    y < h,
                    y >= 0,
            ;
        }
        let inside: bool = x >= bx && x < bx + bw && y >= by && y < by + bh;
        if inside {
            out.push(0xff);
            out.push(0xff);
            out.push(0xff);
            out.push(0);
        } else {
            out.push(blue);
            out.push((y * 255 / h) as u8);
            out.push((x * 255 / w) as u8);
            out.push(0);
        }
        assert(out@ =~= pattern_bytes(*p, n as int) + pattern_pixel(*p, x as int, y as int));
        n = n + 1;
        if x + 1 < w {
            x = x + 1;
        } else {
            proof {
                assert((y + 1) * w == y * w + w) by (nonlinear_arith);
                if y + 1 >= h && n < count {
                    assert((y + 1) * w >= h * w) by (nonlinear_arith)
                        requires
                            y + 1 >= h,
                            w >= 0,
                    ;
                    assert(h * w == w * h) by (nonlinear_arith);
                }
            }
            x = 0;
            y = y + 1;
        }
    }
    out
}

// Shared memory

/// The frames that a compositor publishes in a shared file.
#[derive(Debug)]
pub struct ShmSource {
    pub path: String,
    pub last_seq: u32,
}

/// Whether the file has to be mapped anew.
#[derive(Debug, Clone, Copy, PartialEq, Eq, Structural)]
pub enum MapDo {
    /// What is mapped is enough.
    Keep,
    /// The file is not there, or still growing.
    Wait,
    /// Map the file.
    MapFile { len: usize },
}

/// What is done about a mapping of at least so many bytes.
pub open spec fn mapping(mapped: Option<usize>, file: Option<usize>, want: usize) -> MapDo {
    if mapped is Some && mapped->0 >= want {
        MapDo::Keep
    } else {
        match file {
            Some(len) => if len < want || len < SHM_HEADER_LEN {
                MapDo::Wait
            } else {
                MapDo::MapFile { len }
            },
            None => MapDo::Wait,
        }
    }
}

/// Decide on a mapping of at least so many bytes.
pub fn ensure_mapped(mapped: Option<usize>, file: Option<usize>, want: usize) -> (d: MapDo)
    ensures
        d == mapping(mapped, file, want),
{
    match mapped {
        Some(m) => {
            if m >= want {
                return MapDo::Keep;
            }
        },
        None => {},
    }
    match file {
        Some(len) => if len < want || len < SHM_HEADER_LEN {
            MapDo::Wait
        } else {
            MapDo::MapFile { len }
        },
        None => MapDo::Wait,
    }
}

/// The bytes that a header's frame needs, in a mapping of so many.
pub open spec fn frame_len(h: ShmHeader) -> int {
    SHM_HEADER_LEN + h.stride * h.height
}

/// What becomes of a picture that was copied while the guest may have written.
pub open spec fn copy_finished(
    last_seq: u32,
    hdr: ShmHeader,
    after: Option<ShmHeader>,
    r: Option<Frame>,
    now_seq: u32,
) -> bool {
    let seq = match after {
        Some(a) => a.seq,
        None => u32::MAX,
    };
    if seq == hdr.seq {
        r == Some(
            Frame {
                width: hdr.width,
                height: hdr.height,
                stride: hdr.stride,
                format: hdr.format,
            },
        ) && now_seq == hdr.seq
    } else {
        r is None && now_seq == last_seq
    }
}

impl ShmSource {
    pub fn name(&self) -> (s: String)
        ensures
            s@ == "shm:"@ + self.path@,
    {
        cat2("shm:", self.path.as_str())
    }

    /// How much has to be mapped for the frame that a header announces; none
    /// where the producer has not begun, or the frame is larger than memory.
    pub fn wanted(hdr: &Option<ShmHeader>) -> (r: Option<usize>)
        ensures
            match r {
                Some(n) => *hdr is Some && (*hdr)->0.magic == SHM_MAGIC && (*hdr)->0.width != 0
                    && (*hdr)->0.height != 0 && n == frame_len((*hdr)->0),
                None => *hdr is None || (*hdr)->0.magic != SHM_MAGIC || (*hdr)->0.width == 0
                    || (*hdr)->0.height == 0 || frame_len((*hdr)->0) > usize::MAX,
            },
    {
        match hdr {
            None => None,
            Some(h) => {
                if h.magic != SHM_MAGIC || h.width == 0 || h.height == 0 {
                    return None;
                }
                proof {
                    crate::bytes::u32_product_fits(h.stride, h.height);
                }
                let n: u64 = h.stride as u64 * h.height as u64 + 64;
                if n > usize::MAX as u64 {
                    None
                } else {
                    Some(n as usize)
                }
            },
        }
    }

    /// Whether the frame of a header is copied, from a mapping of so many
    /// bytes: no write is in flight, it is a new one, and it is all there. The
    /// bytes that belong to it, with the header.
    pub fn begin(&self, hdr: &Option<ShmHeader>, mapped: usize) -> (r: Option<usize>)
        ensures
            match r {
                Some(n) => *hdr is Some && (*hdr)->0.seq % 2 == 0 && (*hdr)->0.seq != self.last_seq
                    && n == frame_len((*hdr)->0) && SHM_HEADER_LEN <= n <= mapped,
                None => *hdr is None || (*hdr)->0.seq % 2 != 0 || (*hdr)->0.seq == self.last_seq
                    || frame_len((*hdr)->0) > mapped,
            },
    {
        match hdr {
            None => None,
            Some(h) => {
                if h.seq % 2 != 0 || h.seq == self.last_seq {
                    return None;
                }
                proof {
                    crate::bytes::u32_product_fits(h.stride, h.height);
                }
                let n: u64 = h.stride as u64 * h.height as u64 + 64;
                if n > mapped as u64 {
                    None
                } else {
                    Some(n as usize)
                }
            },
        }
    }

    /// Whether the copied frame counts: the header did not change meanwhile.
    pub fn finish(&mut self, hdr: &ShmHeader, after: &Option<ShmHeader>) -> (r: Option<Frame>)
        ensures
            final(self).path == old(self).path,
            copy_finished(old(self).last_seq, *hdr, *after, r, final(self).last_seq),
    {
        let seq: u32 = match after {
            Some(a) => a.seq,
            None => 0xffff_ffff,
        };
        if seq != hdr.seq {
            return None;
        }
        self.last_seq = hdr.seq;
        Some(
            Frame {
                width: hdr.width,
                height: hdr.height,
                stride: hdr.stride,
                format: hdr.format,
            },
        )
    }
}

/// What a message means to the device: a move sets both axes, a key or button
/// goes down with one and up with zero, a scroll turns the wheels; and each
/// group ends with a report.
pub proof fn what_a_message_means(
    surface: u32,
    x: i32,
    y: i32,
    code: u32,
    pressed: bool,
    msg: DisplayMsg,
    units: Units,
    sw: u32,
    sh: u32,
)
    requires
        1 <= code <= 0x2ff,
    ensures
        ({
            let ev = events_of(msg, units, sw, sh);
            let report = InputEvent { kind: 0, code: 0, value: 0 };
            &&& (msg matches DisplayMsg::PointerMotion { x: mx, y: my, .. } && mx == x && my == y)
                ==> ev == seq![
                InputEvent { kind: 3, code: 0, value: scaled(x, sw) },
                InputEvent { kind: 3, code: 1, value: scaled(y, sh) },
                report,
            ]
            &&& ((msg matches DisplayMsg::PointerButton { button: b, pressed: p, .. } && b == code
                && p == pressed) || (msg matches DisplayMsg::Key { keycode: c, pressed: p, .. } && c
                == code && p == pressed)) ==> ev == seq![
                InputEvent {
                    kind: 1,
                    code: code as u16,
                    value: if pressed {
                        1
                    } else {
                        0
                    },
                },
                report,
            ]
            &&& msg is PointerAxis && units.up != 0 && units.right != 0 ==> ev == seq![
                InputEvent { kind: 2, code: 11, value: units.up },
                InputEvent { kind: 2, code: 12, value: units.right },
                report,
            ]
            &&& msg is PointerAxis && units.up != 0 && units.right == 0 ==> ev == seq![
                InputEvent { kind: 2, code: 11, value: units.up },
                report,
            ]
            &&& msg is PointerAxis && units.up == 0 && units.right != 0 ==> ev == seq![
                InputEvent { kind: 2, code: 12, value: units.right },
                report,
            ]
        }),
{
    let ev = events_of(msg, units, sw, sh);
    if msg is PointerAxis && units.up != 0 && units.right != 0 {
        assert(ev =~= seq![
            InputEvent { kind: 2, code: 11, value: units.up },
            InputEvent { kind: 2, code: 12, value: units.right },
            InputEvent { kind: 0, code: 0, value: 0 },
        ]);
    } else if msg is PointerAxis && units.up != 0 {
        assert(ev =~= seq![
            InputEvent { kind: 2, code: 11, value: units.up },
            InputEvent { kind: 0, code: 0, value: 0 },
        ]);
    } else if msg is PointerAxis && units.right != 0 {
        assert(ev =~= seq![
            InputEvent { kind: 2, code: 12, value: units.right },
            InputEvent { kind: 0, code: 0, value: 0 },
        ]);
    }
}

/// A point of the surface is as far along the device's axis as along the
/// surface: its edges are the axis's ends, what lies outside is at the nearer
/// end, and what lies further right or down is no further left or up.
pub proof fn a_point_keeps_its_place(v: i32, w: i32, size: u32)
    requires
        0 < size <= 0x4000_0000,
    ensures
        0 <= v <= size ==> scaled(v, size) == v * 65535 / size as int,
        scaled(0, size) == 0,
        size <= i32::MAX ==> scaled(size as i32, size) == 65535,
        -0x4000 <= v <= 0 ==> scaled(v, size) == 0,
        0 <= v <= w <= size ==> scaled(v, size) <= scaled(w, size),
{
    let n = size as int;
    assert(0int * 65535 / n == 0) by (nonlinear_arith)
        requires
            n > 0,
    ;
    assert(n * 65535 / n == 65535) by (nonlinear_arith)
        requires
            n > 0,
    ;
    if 0 <= v <= size {
        assert(0 <= v * 65535 / n <= 65535) by (nonlinear_arith)
            requires
                0 <= v <= n,
                n > 0,
        ;
    }
    if 0 <= v <= w <= size {
        assert(0 <= w * 65535 / n <= 65535) by (nonlinear_arith)
            requires
                0 <= w <= n,
                n > 0,
        ;
        assert(v * 65535 / n <= w * 65535 / n) by (nonlinear_arith)
            requires
                0 <= v <= w,
                n > 0,
        ;
    }
    if -0x4000 <= v < 0 {
        assert(0 <= (-v) * 65535 / n <= 0x4000 * 65535) by (nonlinear_arith)
            requires
                0 < -v <= 0x4000,
                n > 0,
        ;
    }
}

/// An event is 24 bytes: the time, which is left to the device, and then kind,
/// code and value, each with its lowest byte first.
pub proof fn an_event_reads_back(e: InputEvent)
    ensures
        ({
            let b = event_bytes(e);
            &&& b.len() == 24
            &&& forall|i: int| 0 <= i < 16 ==> #[trigger] b[i] == 0
            &&& b[16] + 256 * b[17] == e.kind
            &&& b[18] + 256 * b[19] == e.code
            &&& b[20] + 0x100 * b[21] + 0x1_0000 * b[22] + 0x100_0000 * b[23] == e.value as u32
        }),
{
}

/// The host is told of a size before the first frame of that size, and once;
/// frames are numbered without a gap, and one that does not fill its own
/// geometry is not sent.
pub proof fn what_is_sent_of_a_frame(was: FrameLoop, f: Frame, bytes: usize, d: FrameDo, now: FrameLoop)
    requires
        frame_taken(was, f, bytes, d, now),
    ensures
        d.config is Some <==> was.told != Some((f.width, f.height)),
        now.told == Some((f.width, f.height)),
        d.config matches Some(m) ==> (m matches DisplayMsg::SurfaceConfig { width, height, .. }
            && width == f.width && height == f.height),
        d.send is Some <==> bytes == f.stride * f.height,
        d.send matches Some(h) ==> h.seq == was.seq && h.w == f.width && h.h == f.height && h.stride
            == f.stride && h.format == f.format && h.x == 0 && h.y == 0,
        d.send is Some && was.seq < u32::MAX ==> now.seq == was.seq + 1,
        d.send is None ==> now.seq == was.seq,
{
}

/// A picture that the guest wrote on while it was copied is not shown, and is
/// looked at again.
pub proof fn no_torn_picture_is_shown(
    last_seq: u32,
    hdr: ShmHeader,
    after: Option<ShmHeader>,
    r: Option<Frame>,
    now_seq: u32,
)
    requires
        copy_finished(last_seq, hdr, after, r, now_seq),
    ensures
        after matches Some(a) ==> (r is Some <==> a.seq == hdr.seq),
        r matches Some(f) ==> f.width == hdr.width && f.height == hdr.height && f.stride
            == hdr.stride && f.format == hdr.format && now_seq == hdr.seq,
        r is None ==> now_seq == last_seq,
{
}

/// What is mapped is at least what is wanted, and a file that is too short is
/// waited for.
pub proof fn when_a_file_is_mapped(mapped: Option<usize>, file: Option<usize>, want: usize)
    ensures
        mapping(mapped, file, want) == MapDo::Keep <==> mapped is Some && mapped->0 >= want,
        mapping(mapped, file, want) matches MapDo::MapFile { len } ==> len >= want && len >= 64
            && file == Some(len),
        file is None && mapped is None ==> mapping(mapped, file, want) == MapDo::Wait,
        mapped is None ==> (file matches Some(len) ==> len >= want && len >= 64 ==> mapping(
            mapped,
            file,
            want,
        ) == (MapDo::MapFile { len })),
{
}

/// Only a host that greets in the first message, with the right word and
/// version, is served.
pub proof fn who_is_served(kind: u32, msg: Option<DisplayMsg>)
    ensures
        hello_checked(kind, msg) is Ok <==> kind == 1 && (
        msg matches Some(DisplayMsg::Hello { magic, version }) && magic == 0x4e42_4453 && version
            == 1),
        kind != 1 ==> hello_checked(kind, msg) == Err::<(), HelloError>(HelloError::NotControl),
{
}

} // verus!

use nebula::display::{
    DisplayMsg, FrameHeader, ShmHeader, DISPLAY_MAGIC, DISPLAY_PROTO_VERSION, FORMAT_XRGB8888, KIND_CONTROL,
    KIND_FRAME, SHM_MAGIC,
};
use nebula::double::Double;
use nebula::guest_display::{
    check_hello, dispatch, encode_event, ensure_mapped, env_u32, hello_ack, make_source, Frame, FrameLoop,
    HelloError, Hosts, InputDo, InputEvent, InputPump, MapDo, ShmSource, Source, TestPattern, Units, ABS_RANGE, EV_ABS, EV_KEY,
    EV_REL, EV_SYN,
};
use nebula::viewer::{
    check_ack, hello, parse_args, placement, user_event, window_event, AckError, Button, FrameBuf, FrameError,
    Parsed, WindowEvent,
};

const STILL: Units = Units { up: 0, right: 0 };

fn s(v: &[&str]) -> Vec<String> {
    v.iter().map(|x| x.to_string()).collect()
}

#[test]
fn the_handshake_is_checked_by_the_guest() {
    let hi = |magic, version| Some(DisplayMsg::Hello { magic, version });
    assert!(check_hello(KIND_CONTROL, &hi(DISPLAY_MAGIC, DISPLAY_PROTO_VERSION)).is_ok());
    assert!(matches!(check_hello(KIND_FRAME, &None), Err(HelloError::NotControl)));
    let e = check_hello(KIND_CONTROL, &hi(DISPLAY_MAGIC, 9)).unwrap_err();
    assert_eq!(e.message(), "display: protocol version 9, we speak 1");
    assert!(matches!(check_hello(KIND_CONTROL, &None), Err(HelloError::NoHello)));
    assert!(matches!(hello_ack("test"), DisplayMsg::HelloAck { source, .. } if source == "test"));
}

#[test]
fn the_handshake_is_checked_by_the_viewer() {
    assert!(matches!(hello(), DisplayMsg::Hello { magic: DISPLAY_MAGIC, version: DISPLAY_PROTO_VERSION }));
    let ack = |magic, version| DisplayMsg::HelloAck { magic, version, source: "x".into() };
    assert_eq!(check_ack(&Some((KIND_CONTROL, ack(DISPLAY_MAGIC, 1))), "").unwrap(), "x");
    assert!(matches!(check_ack(&None, ""), Err(AckError::Closed)));
    assert!(matches!(check_ack(&Some((KIND_FRAME, ack(DISPLAY_MAGIC, 1))), ""), Err(AckError::NotControl)));
    assert!(matches!(check_ack(&Some((KIND_CONTROL, ack(1, 1))), ""), Err(AckError::NotNebula)));
    let e = check_ack(&Some((KIND_CONTROL, ack(DISPLAY_MAGIC, 2))), "").unwrap_err();
    assert_eq!(
        e.message(),
        "agent speaks display protocol v2, this viewer speaks v1 — rebuild the rootfs"
    );
    let gone = DisplayMsg::SurfaceGone { surface: 3 };
    let e = check_ack(&Some((KIND_CONTROL, gone)), "SurfaceGone { surface: 3 }").unwrap_err();
    assert!(matches!(e, AckError::NoAck { .. }));
    assert_eq!(e.message(), "expected HelloAck, got SurfaceGone { surface: 3 }");
}

#[test]
fn input_reaches_the_kernel() {
    let e = dispatch(&DisplayMsg::PointerMotion { surface: 0, x: 50, y: 0 }, STILL, 100, 100);
    assert_eq!(e.len(), 3);
    assert_eq!((e[0].kind, e[0].code, e[0].value), (EV_ABS, 0, ABS_RANGE / 2));
    assert_eq!((e[2].kind, e[2].code), (EV_SYN, 0));
    let e = dispatch(&DisplayMsg::Key { surface: 0, keycode: 30, pressed: true }, STILL, 1, 1);
    assert_eq!((e[0].kind, e[0].code, e[0].value), (EV_KEY, 30, 1));
    assert!(dispatch(&DisplayMsg::Key { surface: 0, keycode: 0x300, pressed: true }, STILL, 1, 1).is_empty());
    let pixels = |x: f64| Double { bits: x.to_bits() };
    let axis = DisplayMsg::PointerAxis { surface: 0, dx: pixels(0.0), dy: pixels(-53.0) };
    let e = dispatch(&axis, Units { up: 120, right: 0 }, 1, 1);
    assert_eq!((e.len(), e[0].kind, e[0].code, e[0].value), (2, EV_REL, 0x0b, 120));
    let e = dispatch(&axis, Units { up: -1, right: 2 }, 1, 1);
    assert_eq!((e.len(), e[1].code, e[1].value), (3, 0x0c, 2));
    assert!(dispatch(&axis, STILL, 1, 1).is_empty());
    let b = encode_event(&InputEvent { kind: 3, code: 0x0102, value: -1 });
    assert_eq!(b.len(), 24);
    assert_eq!(&b[16..], &[3, 0, 2, 1, 0xff, 0xff, 0xff, 0xff]);
}

#[test]
fn the_pump_follows_the_window() {
    let mut p = InputPump::new();
    assert!(matches!(
        p.on(&Some(DisplayMsg::Resize { surface: 0, width: 0, height: 200 }), STILL),
        InputDo::Resize { width: 0, height: 200 }
    ));
    assert_eq!((p.sw, p.sh), (1, 200));
    assert!(matches!(p.on(&Some(DisplayMsg::PointerMotion { surface: 0, x: 0, y: 100 }), STILL), InputDo::Inject(_)));
    assert!(matches!(p.on(&Some(DisplayMsg::SurfaceGone { surface: 0 }), STILL), InputDo::Nothing));
    assert!(matches!(p.on(&Some(DisplayMsg::Close { surface: 0 }), STILL), InputDo::Close));
    assert!(matches!(p.on(&None, STILL), InputDo::Close));
}

#[test]
fn frames_are_numbered() {
    let mut l = FrameLoop::new();
    let f = Frame { width: 2, height: 2, stride: 8, format: FORMAT_XRGB8888 };
    let d = l.on(&f, 16);
    assert!(matches!(d.config, Some(DisplayMsg::SurfaceConfig { width: 2, height: 2, .. })));
    assert_eq!(d.send.unwrap().seq, 0);
    let d = l.on(&f, 15);
    assert!(d.config.is_none() && d.send.is_none());
    assert_eq!(l.on(&f, 16).send.unwrap().seq, 1);
}

#[test]
fn sources_are_chosen_by_the_environment() {
    assert_eq!((env_u32(&Some("5".into()), 9), env_u32(&Some("0".into()), 9), env_u32(&None, 9)), (5, 9, 9));
    assert!(matches!(make_source(&Some("/dev/shm/fb".into()), &None, &None), Source::Shm(x) if x.path == "/dev/shm/fb"));
    assert!(matches!(
        make_source(&Some("".into()), &None, &Some("600".into())),
        Source::Test(t) if t.width == 1280 && t.height == 600
    ));
}

#[test]
fn the_test_pattern_draws_itself() {
    let mut p = TestPattern::new(64, 48);
    let (f, buf) = p.next_frame().unwrap();
    assert_eq!((f.stride, buf.len()), (256, 256 * 48));
    assert_eq!(p.tick, 1);
    // Alpha is never set, and a box moves over a gradient.
    assert!(buf.chunks(4).all(|c| c[3] == 0));
    assert!(buf.chunks(4).any(|c| c == [255, 255, 255, 0]));
    let (_, next) = p.next_frame().unwrap();
    assert_ne!(buf, next);
    p.resize(10, 10);
    assert_eq!(p.next_frame().unwrap().0.width, 10);
}

fn shm(seq: u32) -> ShmHeader {
    ShmHeader { magic: SHM_MAGIC, version: 1, width: 2, height: 2, stride: 8, format: FORMAT_XRGB8888, seq, flags: 0 }
}

#[test]
fn a_torn_frame_is_not_shown() {
    let mut src = ShmSource { path: "/fb".into(), last_seq: 0 };
    assert_eq!(ShmSource::wanted(&Some(shm(2))), Some(64 + 16));
    assert_eq!(src.begin(&Some(shm(2)), 80), Some(80));
    assert_eq!(src.begin(&Some(shm(3)), 80), None);
    assert_eq!(src.begin(&Some(shm(2)), 79), None);
    assert!(src.finish(&shm(2), &Some(shm(4))).is_none());
    assert_eq!(src.last_seq, 0);
    assert!(src.finish(&shm(2), &Some(shm(2))).is_some());
    assert_eq!(src.begin(&Some(shm(2)), 80), None);
    assert!(matches!(ensure_mapped(Some(80), None, 80), MapDo::Keep));
    assert!(matches!(ensure_mapped(None, Some(80), 80), MapDo::MapFile { len: 80 }));
    assert!(matches!(ensure_mapped(None, Some(10), 80), MapDo::Wait));
}

#[test]
fn the_viewer_reads_its_arguments() {
    assert!(matches!(
        parse_args(&s(&["--socket", "/s", "--title", "t"])),
        Parsed::Run(a) if a.socket.as_deref() == Some("/s") && a.title == "t"
    ));
    assert!(matches!(parse_args(&vec![]), Parsed::Run(a) if a.socket.is_none() && a.title == "Nebula display"));
    assert!(matches!(parse_args(&s(&["--help"])), Parsed::Help));
    assert!(matches!(parse_args(&s(&["--what"])), Parsed::Unexpected(x) if x == "--what"));
}

fn hdr(x: u32, y: u32, w: u32, h: u32) -> FrameHeader {
    FrameHeader { surface: 0, seq: 5, x, y, w, h, stride: w * 4, format: FORMAT_XRGB8888 }
}

#[test]
fn pictures_are_put_together() {
    let mut b = FrameBuf::new();
    let full: Vec<u8> = (0..16u8).collect();
    b.on_frame(&hdr(0, 0, 2, 2), &full).unwrap();
    assert_eq!(b.pixels, vec![0x00020100, 0x00060504, 0x000a0908, 0x000e0d0c]);
    assert_eq!((b.seq, b.generation), (5, 1));
    // A part changes, the rest stays.
    b.on_frame(&hdr(1, 1, 1, 1), &[9, 9, 9, 9]).unwrap();
    assert_eq!(b.pixels, vec![0x00020100, 0x00060504, 0x000a0908, 0x00090909]);
    // What lies outside is cut off.
    b.on_frame(&hdr(1, 0, 2, 1), &[1, 1, 1, 0, 2, 2, 2, 0]).unwrap();
    assert_eq!(b.pixels[1], 0x00010101);
    assert!(matches!(b.on_frame(&hdr(0, 0, 2, 2), &full[..8]), Err(FrameError::Short)));
    let mut other = hdr(0, 0, 2, 2);
    other.format = 0x1234;
    let e = b.on_frame(&other, &full).unwrap_err();
    assert_eq!(e.message(), "guest sent format 0x1234; this viewer only decodes XRGB8888");
    b.on_config(3, 1).unwrap();
    assert_eq!((b.width, b.height, b.pixels.clone()), (3, 1, vec![0, 0, 0]));
}

#[test]
fn windows_tell_the_guest() {
    let d = window_event(WindowEvent::CloseRequested);
    assert!(d.exit && matches!(d.send[..], [DisplayMsg::Close { .. }]));
    assert!(window_event(WindowEvent::RedrawRequested).redraw_now);
    let d = window_event(WindowEvent::Resized { width: 3, height: 4 });
    assert!(d.redraw_soon && matches!(d.send[..], [DisplayMsg::Resize { width: 3, height: 4, .. }]));
    assert!(window_event(WindowEvent::Moved { x: 1, y: 1, inside: false }).send.is_empty());
    assert!(matches!(
        window_event(WindowEvent::Clicked { button: Button::Right, pressed: true }).send[..],
        [DisplayMsg::PointerButton { button: 0x111, pressed: true, .. }]
    ));
    assert!(window_event(WindowEvent::Key { code: 0, pressed: true }).send.is_empty());
    let up = window_event(WindowEvent::FocusLost).send;
    assert!(!up.is_empty() && up.iter().all(|m| matches!(m, DisplayMsg::Key { pressed: false, .. })));
    let p = placement(100, 100, 50, 0);
    assert_eq!((p.x, p.y, p.w, p.h), (25, 49, 50, 1));
    assert!(nebula::viewer::unreachable("/s", "refused").contains("/s"));
}

#[test]
fn the_last_host_is_served() {
    let mut hosts = Hosts::new();
    assert_eq!(hosts.connected(1), None);
    assert!(hosts.serves(1));
    // The next one takes over.
    assert_eq!(hosts.connected(2), Some(1));
    assert!(hosts.serves(2) && !hosts.serves(1));
    hosts.ended(1);
    assert!(hosts.serves(2));
    hosts.ended(2);
    assert_eq!(hosts.served, None);
    assert_eq!(hosts.connected(3), None);
}

#[test]
fn control_messages_reach_the_window() {
    let mut fb = FrameBuf::new();
    let config = |title: Option<&str>| DisplayMsg::SurfaceConfig {
        surface: 0,
        width: 4,
        height: 2,
        title: title.map(str::to_string),
    };
    let d = fb.on_control(&config(Some("editor"))).unwrap();
    assert_eq!((d.title.as_deref(), d.close), (Some("editor"), false));
    assert_eq!((fb.width, fb.height, fb.pixels.len()), (4, 2, 8));
    let d = fb.on_control(&config(None)).unwrap();
    assert_eq!((d.title, d.close), (None, false));
    let d = fb.on_control(&DisplayMsg::SurfaceGone { surface: 0 }).unwrap();
    assert!(d.close);
    let d = fb.on_control(&DisplayMsg::Close { surface: 0 }).unwrap();
    assert!(!d.close && d.title.is_none());
}

#[test]
fn news_of_the_connection_reach_the_window() {
    let d = user_event(3, 2, &None, "dev");
    assert!(d.redraw && d.said.is_none() && d.title.is_none());
    let d = user_event(3, 3, &Some("gone".into()), "dev");
    assert!(!d.redraw);
    assert_eq!(d.said.as_deref(), Some("nebula-display: gone"));
    assert_eq!(d.title.as_deref(), Some("dev — disconnected"));
}

#[test]
fn a_scroll_is_sent_in_pixels() {
    let px = |x: f64| Double { bits: x.to_bits() };
    let d = window_event(WindowEvent::Scrolled { dx: px(-1.5), dy: px(53.0) });
    assert!(matches!(
        d.send.as_slice(),
        [DisplayMsg::PointerAxis { surface: 0, dx, dy }] if *dx == px(-1.5) && *dy == px(53.0)
    ));
    assert!(!d.exit);
}

use nebula::clock::{count, next_sample_secs, sum_counts, Sample, Window};
use nebula::double::Double;

fn number(text: &str) -> f64 {
    text.parse().unwrap()
}

const X86: &str = "\
120.50 400.00
  0:        117          0          0          0   IO-APIC   2-edge      timer
LOC:      52011      48870      50102      47999   Local timer interrupts
sleep 120.51 121.52
";

#[test]
fn parses_an_x86_sample() {
    let s = Sample::parse(0, X86).unwrap();
    assert_eq!(number(&s.uptime), 120.50);
    assert_eq!(s.pit_irqs, Some(117));
    assert_eq!(s.local_irqs, Some(52011 + 48870 + 50102 + 47999));
    let (from, to) = s.sleep.unwrap();
    assert!((number(&to) - number(&from) - 1.01).abs() < 1e-9);
}

#[test]
fn parses_an_arm64_sample() {
    let out = "\
33.10 120.00
 11:       900        800     GICv3  27 Level     arch_timer
sleep 33.11 34.11
";
    let s = Sample::parse(0, out).unwrap();
    assert_eq!(s.pit_irqs, None);
    assert_eq!(s.local_irqs, Some(1_700));
}

#[test]
fn a_missing_uptime_is_no_sample() {
    assert!(Sample::parse(0, "").is_none());
    assert!(Sample::parse(0, "garbage\n").is_none());
}

fn bits(x: f64) -> Double {
    Double { bits: x.to_bits() }
}

/// Host seconds, the guest's uptime, the PIT's count, and what a sleep of a
/// second took.
struct Seen(f64, f64, u128, f64);

fn between(a: &Seen, b: &Seen) -> Window {
    let secs = b.0 - a.0;
    let per_sec = |x, y| count(Some(x), Some(y)).map(|n| bits(n as f64 / secs));
    Window {
        host_secs: bits(secs),
        rate: bits((b.1 - a.1) / secs),
        pit_per_sec: per_sec(a.2, b.2),
        local_per_sec: per_sec(0, 0),
        sleep_ms: Some(bits(b.3 * 1000.0)),
    }
}

#[test]
fn a_healthy_guest_has_no_problems() {
    let a = Seen(0.0, 100.0, 117, 1.0);
    let b = Seen(60.0, 160.01, 117, 1.01);
    let w = between(&a, &b);
    assert!(w.problems().is_empty(), "{w:?}");
}

#[test]
fn a_guest_on_pit_ticks_is_flagged() {
    let a = Seen(0.0, 100.0, 1_000, 1.0);
    // 60 host seconds, 55 guest seconds, 1000 PIT interrupts a second,
    // and a one-second sleep that took a second and a half.
    let b = Seen(60.0, 155.0, 61_000, 1.5);
    let w = between(&a, &b);
    assert_eq!(
        w.problems(),
        vec![
            "guest clock does not keep time with the host",
            "guest timers fire late",
            "guest timers run off the emulated PIT",
        ]
    );
}

#[test]
fn counts_stop_at_the_first_word() {
    assert_eq!(sum_counts(" 1 2 3 IO-APIC 4"), 6);
    assert_eq!(sum_counts("x 1"), 0);
}

#[test]
fn samples_spread_out() {
    assert_eq!(next_sample_secs(false, 0), 30);
    assert_eq!(next_sample_secs(true, 0), 60);
    assert_eq!(next_sample_secs(true, 1), 300);
}

#[test]
fn problems_begin_beyond_their_bounds() {
    let with = |rate: f64, hz: f64, ms: f64| Window {
        host_secs: bits(60.0),
        rate: bits(rate),
        pit_per_sec: Some(bits(hz)),
        local_per_sec: None,
        sleep_ms: Some(bits(ms)),
    };
    let next = |x: f64| f64::from_bits(x.to_bits() + 1);
    let mut rate = 0.98999999999999;
    while rate < 0.99000000000001 {
        assert_eq!(!with(rate, 0.0, 0.0).problems().is_empty(), (rate - 1.0).abs() > 0.01, "{rate}");
        rate = next(rate);
    }
    rate = 1.00999999999999;
    while rate < 1.01000000000001 {
        assert_eq!(!with(rate, 0.0, 0.0).problems().is_empty(), (rate - 1.0).abs() > 0.01, "{rate}");
        rate = next(rate);
    }
    for rate in [f64::INFINITY, f64::NEG_INFINITY, -1.0, 0.0, 1e300, f64::NAN] {
        assert_eq!(!with(rate, 0.0, 0.0).problems().is_empty(), (rate - 1.0).abs() > 0.01, "{rate}");
    }
    assert!(with(1.0, 20.0, 1100.0).problems().is_empty());
    assert_eq!(with(1.0, next(20.0), next(1100.0)).problems().len(), 2);
    assert!(with(1.0, f64::NAN, f64::NAN).problems().is_empty());
}

#[test]
fn counts_that_fell_back_are_none() {
    assert_eq!(count(Some(5), Some(9)), Some(4));
    assert_eq!(count(Some(9), Some(5)), Some(0));
    assert_eq!(count(None, Some(5)), None);
}

#[test]
fn a_sleep_of_no_numbers_is_left_out() {
    let s = Sample::parse(7, "1e2 x\nsleep 1 y\n").unwrap();
    assert_eq!((s.uptime.as_str(), s.host_ns), ("1e2", 7));
    assert!(s.sleep.is_none());
    let s = Sample::parse(7, "-inf\nsleep 1 2 3\nsleep 4\n").unwrap();
    assert_eq!(s.sleep, Some(("1".to_string(), "2".to_string())));
}

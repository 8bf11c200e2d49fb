use nebula::double::{number, reads, unwrap_or_zero, Double};

fn d(x: f64) -> Double {
    Double { bits: x.to_bits() }
}

const SOME: [f64; 22] = [
    f64::NEG_INFINITY,
    f64::MIN,
    -1e19,
    -2.5,
    -1.0,
    -5e-324,
    -0.0,
    0.0,
    5e-324,
    2.2250738585072014e-308,
    0.9999999999999999,
    1.0,
    1.0000000000000002,
    10.005,
    4503599627370495.5,
    9007199254740993.0,
    18446744073709549568.0,
    18446744073709551616.0,
    1e30,
    f64::MAX,
    f64::INFINITY,
    f64::NAN,
];

#[test]
fn numbers_compare_as_they_do() {
    for a in SOME {
        for b in SOME {
            assert_eq!(d(a).exceeds(d(b)), a > b, "{a} {b}");
            assert_eq!(d(a).at_least(d(b)), a >= b, "{a} {b}");
        }
        assert_eq!(d(a).truncated(), a as u64, "{a}");
    }
    assert_eq!(unwrap_or_zero(None), d(0.0));
    assert_eq!(unwrap_or_zero(Some(d(2.0))), d(2.0));
}

#[test]
fn whole_numbers_are_cut_at_every_size() {
    let mut x = 0.75;
    while x < 1e25 {
        for y in [x, x + 0.5, x * 1.3] {
            assert_eq!(d(y).truncated(), y as u64, "{y}");
        }
        x *= 2.0;
    }
}

#[test]
fn numbers_are_told_from_text() {
    for text in [
        "1.5", "x", "", ".", "+", "-", "+3.", ".5", "5.", "-.5e-7", "1e3", "1.2345E2", "1e", "e5",
        "1e-+5", "1e+5", "1.2.3", "-1", "1e30", "1e999", "1e2e3", "1 ", " 1", "inf", "-INF", "+Infinity",
        "infinit", "nan", "-NaN", "nane", "--1", "+-1", "0x10", "1_000", "1e.5", "1.e5", ".e5", "e", "E1",
        "12", "00.00", "1,5", "\u{661}",
    ] {
        assert_eq!(reads(text), text.parse::<f64>().is_ok(), "{text}");
        assert_eq!(number(text.to_string()).is_some(), reads(text));
    }
    assert_eq!(number("7e1".into()).as_deref(), Some("7e1"));
}

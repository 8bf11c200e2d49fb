//! Dates of the Gregorian calendar, from days and seconds since 1970.

use crate::text::{decimal_str, owned};
use crate::vessels::lex_le;
use vstd::prelude::*;
use vstd::string::{StrSliceExecFns, StringExecFns};

verus! {

pub open spec fn leap(y: int) -> bool {
    y % 4 == 0 && (y % 100 != 0 || y % 400 == 0)
}

/// The days from the start of year 0 to the start of a year.
pub open spec fn year_start(y: int) -> int {
    365 * y + (y + 3) / 4 - (y + 99) / 100 + (y + 399) / 400
}

/// The days of a year before a month.
pub open spec fn month_start(m: int, leap: bool) -> int {
    let l = if leap {
        1int
    } else {
        0
    };
    if m <= 1 {
        0
    } else if m == 2 {
        31
    } else if m == 3 {
        59 + l
    } else if m == 4 {
        90 + l
    } else if m == 5 {
        120 + l
    } else if m == 6 {
        151 + l
    } else if m == 7 {
        181 + l
    } else if m == 8 {
        212 + l
    } else if m == 9 {
        243 + l
    } else if m == 10 {
        273 + l
    } else if m == 11 {
        304 + l
    } else if m == 12 {
        334 + l
    } else {
        365 + l
    }
}

/// Whether there is such a date.
pub open spec fn is_date(y: int, m: int, d: int) -> bool {
    1 <= m <= 12 && 1 <= d <= month_start(m + 1, leap(y)) - month_start(m, leap(y))
}

/// The days from 1970-01-01 to a date.
pub open spec fn day_number(y: int, m: int, d: int) -> int {
    year_start(y) + month_start(m, leap(y)) + d - 1 - 719528
}

/// The days from 0000-03-01 to the first of March of a year.
spec fn march(y: int) -> int {
    365 * y + y / 4 - y / 100 + y / 400
}

proof fn lemma_by_4(y: int)
    ensures
        (y + 3) / 4 == y / 4 + (if y % 4 == 0 {
            0int
        } else {
            1
        }),
        (y + 4) / 4 == y / 4 + 1,
        (y + 1) / 4 == y / 4 + (if (y + 1) % 4 == 0 {
            1int
        } else {
            0
        }),
{
    let q = y / 4;
    let r = y % 4;
    assert(y == 4 * q + r && 0 <= r < 4);
}

proof fn lemma_by_100(y: int)
    ensures
        (y + 99) / 100 == y / 100 + (if y % 100 == 0 {
            0int
        } else {
            1
        }),
        (y + 100) / 100 == y / 100 + 1,
        (y + 1) / 100 == y / 100 + (if (y + 1) % 100 == 0 {
            1int
        } else {
            0
        }),
{
    let q = y / 100;
    let r = y % 100;
    assert(y == 100 * q + r && 0 <= r < 100);
}

proof fn lemma_by_400(y: int)
    ensures
        (y + 399) / 400 == y / 400 + (if y % 400 == 0 {
            0int
        } else {
            1
        }),
        (y + 400) / 400 == y / 400 + 1,
        (y + 1) / 400 == y / 400 + (if (y + 1) % 400 == 0 {
            1int
        } else {
            0
        }),
{
    let q = y / 400;
    let r = y % 400;
    assert(y == 400 * q + r && 0 <= r < 400);
}

proof fn lemma_multiples(y: int)
    ensures
        y % 400 == 0 ==> y % 100 == 0,
        y % 100 == 0 ==> y % 4 == 0,
{
}

proof fn lemma_march(y: int)
    ensures
        year_start(y) + month_start(3, leap(y)) == march(y) + 60,
        year_start(y + 1) == march(y) + 366,
        march(y + 1) - march(y) == (if leap(y + 1) {
            366int
        } else {
            365
        }),
{
    lemma_by_4(y);
    lemma_by_100(y);
    lemma_by_400(y);
    lemma_multiples(y);
    lemma_multiples(y + 1);
}

/// The year of an era of 400 years, from the day of the era.
proof fn lemma_year_of_era(doe: u32)
    requires
        doe < 146097,
    ensures
        ({
            let yoe = (doe - doe / 1460 + doe / 36524 - doe / 146096) / 365;
            &&& 0 <= yoe <= 399
            &&& 365 * yoe + yoe / 4 - yoe / 100 <= doe
            &&& yoe == 399 || doe < 365 * (yoe + 1) + (yoe + 1) / 4 - (yoe + 1) / 100
        }),
{
    assert({
        let yoe = (doe - doe / 1460 + doe / 36524 - doe / 146096) / 365;
        &&& 0 <= yoe <= 399
        &&& 365 * yoe + yoe / 4 - yoe / 100 <= doe
        &&& yoe == 399 || doe < 365 * (yoe + 1) + (yoe + 1) / 4 - (yoe + 1) / 100
    }) by (bit_vector)
        requires
            doe < 146097,
    ;
}

/// The month of a year that starts in March, from its day.
proof fn lemma_month(doy: int, l: bool)
    requires
        0 <= doy <= 365,
        doy < (if l {
            366int
        } else {
            365
        }),
    ensures
        ({
            let mp = (5 * doy + 2) / 153;
            let off = (153 * mp + 2) / 5;
            &&& 0 <= mp <= 11
            &&& 0 <= off <= doy
            &&& mp < 10 ==> forall|k: bool| #![trigger month_start(3, k)]
                month_start(mp + 3, k) == month_start(3, k) + off && doy - off < month_start(
                    mp + 4,
                    k,
                ) - month_start(mp + 3, k)
            &&& mp >= 10 ==> month_start(mp - 9, l) + 306 == off && doy - off < month_start(
                mp - 8,
                l,
            ) - month_start(mp - 9, l)
        }),
{
    let mp = (5 * doy + 2) / 153;
    assert(153 * mp <= 5 * doy + 2 < 153 * mp + 153);
    assert(0 <= mp <= 11);
    if mp == 0 {
        assert((153 * mp + 2) / 5 == 0);
    }
    if mp == 1 {
        assert((153 * mp + 2) / 5 == 31);
    }
    if mp == 2 {
        assert((153 * mp + 2) / 5 == 61);
    }
    if mp == 3 {
        assert((153 * mp + 2) / 5 == 92);
    }
    if mp == 4 {
        assert((153 * mp + 2) / 5 == 122);
    }
    if mp == 5 {
        assert((153 * mp + 2) / 5 == 153);
    }
    if mp == 6 {
        assert((153 * mp + 2) / 5 == 184);
    }
    if mp == 7 {
        assert((153 * mp + 2) / 5 == 214);
    }
    if mp == 8 {
        assert((153 * mp + 2) / 5 == 245);
    }
    if mp == 9 {
        assert((153 * mp + 2) / 5 == 275);
    }
    if mp == 10 {
        assert((153 * mp + 2) / 5 == 306);
    }
    if mp == 11 {
        assert((153 * mp + 2) / 5 == 337);
    }
}

proof fn lemma_era(e: int, k: int)
    requires
        0 <= k < 400,
    ensures
        march(400 * e + k) == 146097 * e + 365 * k + k / 4 - k / 100,
{
    let y = 400 * e + k;
    assert(y / 4 == 100 * e + k / 4);
    assert(y / 100 == 4 * e + k / 100);
    assert(y / 400 == e);
}

/// The date of a day, counted from 1970-01-01.
pub fn civil_from_days(z: i64) -> (r: (i64, u32, u32))
    requires
        z <= i64::MAX - 719468,
    ensures
        is_date(r.0 as int, r.1 as int, r.2 as int),
        day_number(r.0 as int, r.1 as int, r.2 as int) == z,
{
    let z: i64 = z + 719468;
    let era: i64 = if z >= 0 {
        (z as u64 / 146097) as i64
    } else {
        -((((-(z + 1)) as u64) / 146097) as i64) - 1
    };
    assert(era * 146097 <= z < era * 146097 + 146097);
    let doe: u32 = (z - era * 146097) as u32;
    let yoe: u32 = (doe - doe / 1460 + doe / 36524 - doe / 146096) / 365;
    proof {
        lemma_year_of_era(doe);
    }
    let year: i64 = yoe as i64 + era * 400;
    let doy: u32 = doe - (365 * yoe + yoe / 4 - yoe / 100);
    let ghost y = year as int;
    proof {
        lemma_era(era as int, yoe as int);
        assert(march(y) == z - doy);
        if yoe < 399 {
            lemma_era(era as int, yoe + 1);
        } else {
            lemma_era(era + 1, 0);
        }
        assert(z < march(y + 1));
        lemma_march(y);
        lemma_month(doy as int, leap(y + 1));
    }
    let mp: u32 = (5 * doy + 2) / 153;
    let d: u32 = doy - (153 * mp + 2) / 5 + 1;
    if mp < 10 {
        proof {
            assert(month_start(3, leap(y)) == month_start(3, leap(y)));
        }
        (year, mp + 3, d)
    } else {
        (year + 1, mp - 9, d)
    }
}

proof fn lemma_years_grow(a: int, b: int)
    requires
        a < b,
    ensures
        year_start(a) + month_start(13, leap(a)) <= year_start(b),
    decreases b - a,
{
    lemma_by_4(a);
    lemma_by_100(a);
    lemma_by_400(a);
    lemma_multiples(a);
    assert(year_start(a + 1) == year_start(a) + month_start(13, leap(a)));
    if a + 1 < b {
        lemma_years_grow(a + 1, b);
    }
}

/// A day has one date.
pub proof fn dates_are_unique(y1: int, m1: int, d1: int, y2: int, m2: int, d2: int)
    requires
        is_date(y1, m1, d1),
        is_date(y2, m2, d2),
        day_number(y1, m1, d1) == day_number(y2, m2, d2),
    ensures
        y1 == y2,
        m1 == m2,
        d1 == d2,
{
    assert(month_start(m1, leap(y1)) + d1 - 1 < month_start(13, leap(y1)));
    assert(month_start(m2, leap(y2)) + d2 - 1 < month_start(13, leap(y2)));
    if y1 < y2 {
        lemma_years_grow(y1, y2);
    }
    if y2 < y1 {
        lemma_years_grow(y2, y1);
    }
}

/// A number with leading zeros, at least so many digits wide.
pub open spec fn padded(n: nat, width: nat) -> Seq<char>
    decreases width,
{
    let s = crate::text::decimal(n);
    if s.len() >= width {
        s
    } else {
        Seq::new((width - s.len()) as nat, |i: int| '0') + s
    }
}

fn pad(n: u64, width: usize) -> (s: String)
    ensures
        s@ == padded(n as nat, width as nat),
{
    let digits: String = decimal_str(n);
    let have: usize = digits.as_str().unicode_len();
    let mut s: String = owned("");
    proof {
        reveal_strlit("");
        assert(s@ =~= Seq::new(0, |i: int| '0'));
    }
    let mut i: usize = have;
    while i < width
        invariant
            have <= i,
            have <= width ==> i <= width,
            have > width ==> i == have,
            s@ == Seq::new((i - have) as nat, |k: int| '0'),
        decreases width - i,
    {
        s.append("0");
        proof {
            reveal_strlit("0");
            assert(s@ =~= Seq::new((i + 1 - have) as nat, |k: int| '0'));
        }
        i = i + 1;
    }
    s.append(digits.as_str());
    assert(have >= width ==> s@ =~= digits@);
    s
}

/// A stamp `YYYYMMDD-HHMMSS` of a date and a second of the day.
pub open spec fn stamp(y: int, m: int, d: int, second: int) -> Seq<char> {
    padded(y as nat, 4) + padded(m as nat, 2) + padded(d as nat, 2) + "-"@ + padded(
        (second / 3600) as nat,
        2,
    ) + padded((second % 3600 / 60) as nat, 2) + padded((second % 60) as nat, 2)
}

/// Whether a text is the stamp of a moment, in seconds since 1970, in UTC.
pub open spec fn is_stamp_of(secs: int, s: Seq<char>) -> bool {
    exists|y: int, m: int, d: int|
        #![trigger is_date(y, m, d)]
        is_date(y, m, d) && day_number(y, m, d) == secs / 86400 && s == stamp(
            y,
            m,
            d,
            secs % 86400,
        )
}

/// The stamp of a moment, in seconds since 1970, in UTC.
pub fn utc_stamp(secs: u64) -> (s: String)
    ensures
        is_stamp_of(secs as int, s@),
{
    let days: i64 = (secs / 86400) as i64;
    let rem: u64 = secs % 86400;
    let (y, m, d) = civil_from_days(days);
    proof {
        if y < 0 {
            lemma_years_grow(y as int, 0);
        }
    }
    let mut s: String = pad(y as u64, 4);
    s.append(pad(m as u64, 2).as_str());
    s.append(pad(d as u64, 2).as_str());
    s.append("-");
    s.append(pad(rem / 3600, 2).as_str());
    s.append(pad(rem % 3600 / 60, 2).as_str());
    s.append(pad(rem % 60, 2).as_str());
    assert(is_date(y as int, m as int, d as int));
    s
}

// Stamps in order.

/// The start of the year 10000, in seconds since 1970.
pub const YEAR_10000: u64 = 253402300800;

spec fn ten_to(w: nat) -> nat
    decreases w,
{
    if w == 0 {
        1
    } else {
        10 * ten_to((w - 1) as nat)
    }
}

/// The last `w` digits of a number.
spec fn last_digits(n: nat, w: nat) -> Seq<char>
    decreases w,
{
    if w == 0 {
        Seq::empty()
    } else {
        last_digits(n / 10, (w - 1) as nat).push(crate::text::digit(n % 10))
    }
}

proof fn lemma_last_digits(n: nat, w: nat)
    ensures
        last_digits(n, w).len() == w,
        crate::text::all_digits(last_digits(n, w)),
        n == 0 ==> last_digits(n, w) == Seq::new(w, |i: int| '0'),
    decreases w,
{
    if w > 0 {
        lemma_last_digits(n / 10, (w - 1) as nat);
        assert(crate::text::is_digit(crate::text::digit(n % 10)));
        if n == 0 {
            assert(last_digits(n, w) =~= Seq::new(w, |i: int| '0'));
        }
    }
}

proof fn lemma_padded(n: nat, w: nat)
    requires
        w >= 1,
        n < ten_to(w),
    ensures
        padded(n, w) == last_digits(n, w),
        crate::text::decimal(n).len() <= w,
    decreases w,
{
    let v = (w - 1) as nat;
    reveal_with_fuel(ten_to, 2);
    if n < 10 {
        lemma_last_digits(0, v);
        assert(padded(n, w) =~= last_digits(n, w));
    } else {
        assert(w > 1);
        lemma_padded(n / 10, v);
        assert(crate::text::decimal(n) == crate::text::decimal(n / 10).push(
            crate::text::digit(n % 10),
        ));
        assert(padded(n, w) =~= padded(n / 10, v).push(crate::text::digit(n % 10)));
    }
}

/// Before another text of the same length, in dictionary order.
spec fn before(a: Seq<char>, b: Seq<char>) -> bool {
    a.len() == b.len() && a != b && lex_le(a, b)
}

proof fn lemma_before_extends(a: Seq<char>, b: Seq<char>, c: Seq<char>, d: Seq<char>)
    requires
        a.len() == b.len(),
        c.len() == d.len(),
    ensures
        before(a, b) ==> before(a + c, b + d),
        a == b && before(c, d) ==> before(a + c, b + d),
    decreases a.len(),
{
    if a.len() == 0 {
        assert(a =~= b);
        assert(a + c =~= c);
        assert(b + d =~= d);
    } else {
        assert((a + c).skip(1) =~= a.skip(1) + c);
        assert((b + d).skip(1) =~= b.skip(1) + d);
        assert((a + c)[0] == a[0]);
        assert((b + d)[0] == b[0]);
        lemma_before_extends(a.skip(1), b.skip(1), c, d);
        if a[0] == b[0] && a.skip(1) == b.skip(1) {
            assert(a =~= seq![a[0]] + a.skip(1));
            assert(b =~= seq![b[0]] + b.skip(1));
        }
        if before(a, b) {
            if a[0] == b[0] {
                assert(before(a.skip(1), b.skip(1)));
            }
            assert(a + c != b + d) by {
                if a + c == b + d {
                    assert((a + c).take(a.len() as int) =~= a);
                    assert((b + d).take(a.len() as int) =~= b);
                }
            }
        }
        if a == b && before(c, d) {
            assert(a + c != b + d) by {
                if a + c == b + d {
                    assert((a + c).skip(a.len() as int) =~= c);
                    assert((b + d).skip(a.len() as int) =~= d);
                }
            }
        }
    }
}

proof fn lemma_digits_before(n: nat, k: nat, w: nat)
    requires
        n < k < ten_to(w),
    ensures
        before(last_digits(n, w), last_digits(k, w)),
    decreases w,
{
    if w > 0 {
        let v = (w - 1) as nat;
        let a = last_digits(n / 10, v);
        let b = last_digits(k / 10, v);
        let c = seq![crate::text::digit(n % 10)];
        let d = seq![crate::text::digit(k % 10)];
        lemma_last_digits(n / 10, v);
        lemma_last_digits(k / 10, v);
        assert(a.push(c[0]) =~= a + c);
        assert(b.push(d[0]) =~= b + d);
        if n / 10 < k / 10 {
            lemma_digits_before(n / 10, k / 10, v);
        } else {
            assert(n % 10 < k % 10);
            assert(c[0] < d[0]);
            assert(before(c, d));
        }
        lemma_before_extends(a, b, c, d);
    }
}

/// A field of a stamp: where the number grows, so does its text.
proof fn lemma_field(n: nat, k: nat, w: nat)
    requires
        w >= 1,
        n < ten_to(w),
        k < ten_to(w),
    ensures
        padded(n, w).len() == w,
        padded(k, w).len() == w,
        n < k ==> before(padded(n, w), padded(k, w)),
{
    lemma_padded(n, w);
    lemma_padded(k, w);
    lemma_last_digits(n, w);
    lemma_last_digits(k, w);
    if n < k {
        lemma_digits_before(n, k, w);
    }
}

/// The text of the fields, and of more fields behind them.
proof fn lemma_then(a: Seq<char>, b: Seq<char>, n: nat, k: nat, w: nat, decided: bool)
    requires
        a.len() == b.len(),
        w >= 1,
        n < ten_to(w),
        k < ten_to(w),
        decided ==> before(a, b),
        !decided ==> a == b && n <= k,
    ensures
        (a + padded(n, w)).len() == a.len() + w,
        (b + padded(k, w)).len() == a.len() + w,
        decided || n < k ==> before(a + padded(n, w), b + padded(k, w)),
        !decided && n == k ==> a + padded(n, w) == b + padded(k, w),
{
    lemma_field(n, k, w);
    lemma_before_extends(a, b, padded(n, w), padded(k, w));
}

proof fn lemma_year_range(secs: int, y: int, m: int, d: int)
    requires
        0 <= secs < YEAR_10000,
        is_date(y, m, d),
        day_number(y, m, d) == secs / 86400,
    ensures
        0 <= y < 10000,
        946684800 <= secs < 4102444800 ==> 2000 <= y < 2100,
{
    assert(month_start(m, leap(y)) + d - 1 < month_start(13, leap(y)));
    if y < 0 {
        lemma_years_grow(y, 0);
    }
    if y > 9999 {
        if y > 10000 {
            lemma_years_grow(10000, y);
        }
    }
    if y < 2000 {
        lemma_years_grow(y, 2000);
    }
    if y > 2100 {
        lemma_years_grow(2100, y);
    }
}

/// A stamp of a year with four digits has fifteen characters: eight digits, a
/// hyphen and six digits. In the years 2000 to 2099 it starts with `20`.
pub proof fn stamps_have_one_shape(secs: int, s: Seq<char>)
    requires
        0 <= secs < YEAR_10000,
        is_stamp_of(secs, s),
    ensures
        s.len() == 15,
        s[8] == '-',
        forall|i: int| 0 <= i < 15 && i != 8 ==> crate::text::is_digit(#[trigger] s[i]),
        946684800 <= secs < 4102444800 ==> s[0] == '2' && s[1] == '0',
{
    let (y, m, d) = choose|y: int, m: int, d: int|
        #![trigger is_date(y, m, d)]
        is_date(y, m, d) && day_number(y, m, d) == secs / 86400 && s == stamp(
            y,
            m,
            d,
            secs % 86400,
        );
    let second = secs % 86400;
    reveal_strlit("-");
    reveal_with_fuel(ten_to, 5);
    lemma_year_range(secs, y, m, d);
    lemma_padded(y as nat, 4);
    lemma_padded(m as nat, 2);
    lemma_padded(d as nat, 2);
    lemma_padded((second / 3600) as nat, 2);
    lemma_padded((second % 3600 / 60) as nat, 2);
    lemma_padded((second % 60) as nat, 2);
    lemma_last_digits(y as nat, 4);
    lemma_last_digits(m as nat, 2);
    lemma_last_digits(d as nat, 2);
    lemma_last_digits((second / 3600) as nat, 2);
    lemma_last_digits((second % 3600 / 60) as nat, 2);
    lemma_last_digits((second % 60) as nat, 2);
    if 946684800 <= secs < 4102444800 {
        reveal_with_fuel(last_digits, 5);
        assert(s[0] == last_digits(y as nat, 4)[0]);
        assert(s[1] == last_digits(y as nat, 4)[1]);
    }
}

/// The text of a time of day behind that of a date.
proof fn lemma_times(x1: Seq<char>, x2: Seq<char>, t1: int, t2: int, decided: bool)
    requires
        x1.len() == x2.len(),
        0 <= t1 < 86400,
        0 <= t2 < 86400,
        decided ==> before(x1, x2),
        !decided ==> x1 == x2 && t1 <= t2,
    ensures
        ({
            let r1 = x1 + "-"@ + padded((t1 / 3600) as nat, 2) + padded(
                (t1 % 3600 / 60) as nat,
                2,
            ) + padded((t1 % 60) as nat, 2);
            let r2 = x2 + "-"@ + padded((t2 / 3600) as nat, 2) + padded(
                (t2 % 3600 / 60) as nat,
                2,
            ) + padded((t2 % 60) as nat, 2);
            if decided || t1 < t2 {
                before(r1, r2)
            } else {
                r1 == r2
            }
        }),
{
    let (h1, n1, c1) = (t1 / 3600, t1 % 3600 / 60, t1 % 60);
    let (h2, n2, c2) = (t2 / 3600, t2 % 3600 / 60, t2 % 60);
    assert(t1 == 3600 * h1 + 60 * n1 + c1 && t2 == 3600 * h2 + 60 * n2 + c2);
    reveal_with_fuel(ten_to, 3);
    assert(ten_to(2) == 100);
    let (o1, o2) = (x1 + "-"@, x2 + "-"@);
    lemma_before_extends(x1, x2, "-"@, "-"@);
    lemma_then(o1, o2, h1 as nat, h2 as nat, 2, decided);
    let (p1, p2) = (o1 + padded(h1 as nat, 2), o2 + padded(h2 as nat, 2));
    let g = decided || h1 < h2;
    lemma_then(p1, p2, n1 as nat, n2 as nat, 2, g);
    let (q1, q2) = (p1 + padded(n1 as nat, 2), p2 + padded(n2 as nat, 2));
    lemma_then(q1, q2, c1 as nat, c2 as nat, 2, g || n1 < n2);
}

/// The text of a date.
proof fn lemma_dates(y1: int, m1: int, d1: int, y2: int, m2: int, d2: int)
    requires
        0 <= y1 <= y2 < 10000,
        1 <= m1 <= 12,
        1 <= m2 <= 12,
        1 <= d1 <= 31,
        1 <= d2 <= 31,
        y1 == y2 ==> m1 <= m2,
        y1 == y2 && m1 == m2 ==> d1 <= d2,
    ensures
        ({
            let x1 = padded(y1 as nat, 4) + padded(m1 as nat, 2) + padded(d1 as nat, 2);
            let x2 = padded(y2 as nat, 4) + padded(m2 as nat, 2) + padded(d2 as nat, 2);
            if y1 == y2 && m1 == m2 && d1 == d2 {
                x1 == x2
            } else {
                before(x1, x2)
            }
        }),
{
    reveal_with_fuel(ten_to, 5);
    assert(ten_to(2) == 100);
    assert(ten_to(4) == 10000);
    let (a1, a2) = (padded(y1 as nat, 4), padded(y2 as nat, 4));
    lemma_field(y1 as nat, y2 as nat, 4);
    lemma_then(a1, a2, m1 as nat, m2 as nat, 2, y1 < y2);
    let (b1, b2) = (a1 + padded(m1 as nat, 2), a2 + padded(m2 as nat, 2));
    lemma_then(b1, b2, d1 as nat, d2 as nat, 2, y1 < y2 || m1 < m2);
}

/// Stamps grow with time, as texts in dictionary order, as long as a year has
/// four digits.
pub proof fn stamps_grow(secs1: int, s1: Seq<char>, secs2: int, s2: Seq<char>)
    requires
        0 <= secs1 <= secs2 < YEAR_10000,
        is_stamp_of(secs1, s1),
        is_stamp_of(secs2, s2),
    ensures
        lex_le(s1, s2),
        s1 == s2 <==> secs1 == secs2,
{
    let (y1, m1, d1) = choose|y: int, m: int, d: int|
        #![trigger is_date(y, m, d)]
        is_date(y, m, d) && day_number(y, m, d) == secs1 / 86400 && s1 == stamp(
            y,
            m,
            d,
            secs1 % 86400,
        );
    let (y2, m2, d2) = choose|y: int, m: int, d: int|
        #![trigger is_date(y, m, d)]
        is_date(y, m, d) && day_number(y, m, d) == secs2 / 86400 && s2 == stamp(
            y,
            m,
            d,
            secs2 % 86400,
        );
    lemma_year_range(secs1, y1, m1, d1);
    lemma_year_range(secs2, y2, m2, d2);
    assert(month_start(m2, leap(y2)) + d2 - 1 < month_start(13, leap(y2)));
    if y2 < y1 {
        lemma_years_grow(y2, y1);
    }
    if secs1 / 86400 == secs2 / 86400 {
        dates_are_unique(y1, m1, d1, y2, m2, d2);
    }
    lemma_dates(y1, m1, d1, y2, m2, d2);
    let x1 = padded(y1 as nat, 4) + padded(m1 as nat, 2) + padded(d1 as nat, 2);
    let x2 = padded(y2 as nat, 4) + padded(m2 as nat, 2) + padded(d2 as nat, 2);
    let decided = !(y1 == y2 && m1 == m2 && d1 == d2);
    lemma_times(x1, x2, secs1 % 86400, secs2 % 86400, decided);
    if s1 == s2 {
        crate::vessels::lemma_lex_total(s1, s2);
    }
}

/// How long each month is, and which years are leap years.
pub proof fn how_long_months_are(y: int, m: int, d: int)
    ensures
        is_date(y, m, d) <==> (1 <= m <= 12 && 1 <= d <= (if m == 4 || m == 6 || m == 9 || m == 11 {
            30int
        } else if m == 2 {
            if y % 400 == 0 || (y % 4 == 0 && y % 100 != 0) {
                29int
            } else {
                28
            }
        } else {
            31
        })),
{
}

/// Days are counted one by one from the first of January 1970: within a month,
/// from a month to the next, and from a year to the next.
pub proof fn days_are_counted(y: int, m: int, d: int)
    requires
        is_date(y, m, d),
        y >= 0,
    ensures
        day_number(1970, 1, 1) == 0,
        is_date(y, m, d + 1) ==> day_number(y, m, d + 1) == day_number(y, m, d) + 1,
        !is_date(y, m, d + 1) && m < 12 ==> day_number(y, m + 1, 1) == day_number(y, m, d) + 1,
        !is_date(y, m, d + 1) && m == 12 ==> day_number(y + 1, 1, 1) == day_number(y, m, d) + 1,
{
    lemma_year_len(y);
}

proof fn lemma_year_len(y: int)
    ensures
        year_start(y + 1) == year_start(y) + (if leap(y) {
            366int
        } else {
            365
        }),
{
    lemma_by_4(y);
    lemma_by_100(y);
    lemma_by_400(y);
    lemma_multiples(y);
}

proof fn lemma_zeros(z: Seq<char>, s: Seq<char>)
    requires
        forall|i: int| 0 <= i < z.len() ==> #[trigger] z[i] == '0',
    ensures
        crate::text::dec_value(z + s) == crate::text::dec_value(s),
    decreases s.len(), z.len(),
{
    let all = z + s;
    if s.len() > 0 {
        lemma_zeros(z, s.drop_last());
        assert(all.drop_last() =~= z + s.drop_last());
        assert(all.last() == s.last());
    } else if z.len() > 0 {
        let y = z.drop_last();
        assert forall|i: int| 0 <= i < y.len() implies #[trigger] y[i] == '0' by {
            assert(y[i] == z[i]);
        }
        lemma_zeros(y, s);
        assert(all =~= z);
        assert(all.drop_last() =~= y + s);
        assert(all.last() == '0') by {
            assert(z[z.len() - 1] == '0');
        }
    } else {
        assert(all =~= s);
    }
}

proof fn lemma_padded_reads(n: nat, width: nat)
    requires
        crate::text::decimal(n).len() <= width,
    ensures
        padded(n, width).len() == width,
        crate::text::dec_value(padded(n, width)) == n,
{
    let s = crate::text::decimal(n);
    crate::text::decimal_reads_back(n);
    if s.len() < width {
        lemma_zeros(Seq::new((width - s.len()) as nat, |i: int| '0'), s);
    }
}

proof fn lemma_digits(n: nat)
    ensures
        n < 100 ==> crate::text::decimal(n).len() <= 2,
        n < 10000 ==> crate::text::decimal(n).len() <= 4,
{
    reveal_with_fuel(crate::text::decimal, 5);
}

/// A stamp is read as its moment: year, month and day, and hour, minute and
/// second.
pub proof fn a_stamp_reads_back(y: int, m: int, d: int, second: int)
    requires
        is_date(y, m, d),
        0 <= y < 10000,
        0 <= second < 86400,
    ensures
        ({
            let s = stamp(y, m, d, second);
            &&& s.len() == 15
            &&& crate::text::dec_value(s.subrange(0, 4)) == y
            &&& crate::text::dec_value(s.subrange(4, 6)) == m
            &&& crate::text::dec_value(s.subrange(6, 8)) == d
            &&& s[8] == '-'
            &&& 3600 * crate::text::dec_value(s.subrange(9, 11)) + 60 * crate::text::dec_value(
                s.subrange(11, 13),
            ) + crate::text::dec_value(s.subrange(13, 15)) == second
            &&& crate::text::dec_value(s.subrange(11, 13)) < 60
            &&& crate::text::dec_value(s.subrange(13, 15)) < 60
        }),
{
    reveal_strlit("-");
    let s = stamp(y, m, d, second);
    let (a, b, c) = (padded(y as nat, 4), padded(m as nat, 2), padded(d as nat, 2));
    let (e, f, g) = (
        padded((second / 3600) as nat, 2),
        padded((second % 3600 / 60) as nat, 2),
        padded((second % 60) as nat, 2),
    );
    lemma_digits(y as nat);
    lemma_digits(m as nat);
    lemma_digits(d as nat);
    lemma_digits((second / 3600) as nat);
    lemma_digits((second % 3600 / 60) as nat);
    lemma_digits((second % 60) as nat);
    lemma_padded_reads(y as nat, 4);
    lemma_padded_reads(m as nat, 2);
    lemma_padded_reads(d as nat, 2);
    lemma_padded_reads((second / 3600) as nat, 2);
    lemma_padded_reads((second % 3600 / 60) as nat, 2);
    lemma_padded_reads((second % 60) as nat, 2);
    assert(s.subrange(0, 4) =~= a);
    assert(s.subrange(4, 6) =~= b);
    assert(s.subrange(6, 8) =~= c);
    assert(s.subrange(9, 11) =~= e);
    assert(s.subrange(11, 13) =~= f);
    assert(s.subrange(13, 15) =~= g);
    assert(second % 60 == second % 3600 % 60);
}

} // verus!

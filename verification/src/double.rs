//! Double-precision numbers, by their bits.
//!
//! Such numbers are told from other text, compared, and cut to whole ones here.
//! What rounds (reading their digits, calculating, writing them) is left to the
//! callers.

use crate::text::{from_chars, to_chars};
use vstd::arithmetic::power2::pow2;
use vstd::prelude::*;

verus! {

/// A double-precision number, by the bits of its IEEE 754 form: the sign, 11
/// bits of exponent and 52 of fraction.
#[derive(Debug, Clone, Copy, PartialEq, Eq, Structural)]
pub struct Double {
    pub bits: u64,
}

/// The first bits that have the sign set.
pub const SIGN: u64 = 0x8000_0000_0000_0000;

pub const INFINITY: u64 = 0x7ff0_0000_0000_0000;

/// The lowest bit of the exponent.
pub const ONE_EXPONENT: u64 = 0x10_0000_0000_0000;

impl Double {
    /// The bits without the sign.
    pub open spec fn magnitude(self) -> int {
        if self.bits < SIGN {
            self.bits as int
        } else {
            self.bits - SIGN
        }
    }

    pub open spec fn is_nan(self) -> bool {
        self.magnitude() > INFINITY
    }

    /// Where the number stands among the others: equal numbers have one rank,
    /// the two zeros too, and the greater number has the greater one.
    pub open spec fn rank(self) -> int {
        if self.bits < SIGN {
            self.magnitude()
        } else {
            -self.magnitude()
        }
    }

    /// Whether it is greater than another; no comparison with what is not a
    /// number holds.
    pub open spec fn greater(self, other: Double) -> bool {
        !self.is_nan() && !other.is_nan() && self.rank() > other.rank()
    }

    /// Whether it is another or greater.
    pub open spec fn reaches(self, other: Double) -> bool {
        !self.is_nan() && !other.is_nan() && self.rank() >= other.rank()
    }

    fn ranked(&self) -> (r: Option<i64>)
        ensures
            match r {
                Some(k) => !self.is_nan() && k == self.rank(),
                None => self.is_nan(),
            },
    {
        let negative: bool = self.bits >= SIGN;
        let m: u64 = if negative {
            self.bits - SIGN
        } else {
            self.bits
        };
        if m > INFINITY {
            None
        } else if negative {
            Some(-(m as i64))
        } else {
            Some(m as i64)
        }
    }

    pub fn exceeds(&self, other: Double) -> (r: bool)
        ensures
            r == self.greater(other),
    {
        match (self.ranked(), other.ranked()) {
            (Some(a), Some(b)) => a > b,
            _ => false,
        }
    }

    pub fn at_least(&self, other: Double) -> (r: bool)
        ensures
            r == self.reaches(other),
    {
        match (self.ranked(), other.ranked()) {
            (Some(a), Some(b)) => a >= b,
            _ => false,
        }
    }

    /// The number without its fraction: zero for what is negative or no number,
    /// the greatest where it is greater still.
    pub open spec fn whole(self) -> nat {
        let e = self.bits / ONE_EXPONENT;
        let fraction = (self.bits % ONE_EXPONENT) as nat;
        if self.is_nan() || self.bits >= SIGN {
            0
        } else if self.bits == INFINITY {
            u64::MAX as nat
        } else if e == 0 {
            fraction / pow2(1074)
        } else if e < 1075 {
            (ONE_EXPONENT as nat + fraction) / pow2((1075 - e) as nat)
        } else {
            let n = (ONE_EXPONENT as nat + fraction) * pow2((e - 1075) as nat);
            if n > u64::MAX {
                u64::MAX as nat
            } else {
                n
            }
        }
    }

    /// The number as a whole one.
    pub fn truncated(&self) -> (n: u64)
        ensures
            n == self.whole(),
    {
        let b: u64 = self.bits;
        if b > INFINITY {
            return 0;
        }
        if b == INFINITY {
            return u64::MAX;
        }
        let e: u64 = b / ONE_EXPONENT;
        let significand: u64 = ONE_EXPONENT + b % ONE_EXPONENT;
        assert(significand < 0x20_0000_0000_0000);
        if e < 1023 {
            proof {
                vstd::arithmetic::power2::lemma2_to64();
                vstd::arithmetic::power2::lemma2_to64_rest();
                let far: nat = if e == 0 {
                    1074
                } else {
                    (1075 - e) as nat
                };
                let n: nat = if e == 0 {
                    (b % ONE_EXPONENT) as nat
                } else {
                    significand as nat
                };
                if far > 53 {
                    vstd::arithmetic::power2::lemma_pow2_strictly_increases(53, far);
                }
                vstd::arithmetic::div_mod::lemma_basic_div(n as int, pow2(far) as int);
            }
            return 0;
        }
        if e < 1075 {
            let k: u64 = 1075 - e;
            proof {
                vstd::bits::lemma_u64_shr_is_div(significand, k);
            }
            return significand >> k;
        }
        let k: u64 = e - 1075;
        if k > 11 {
            proof {
                vstd::arithmetic::power2::lemma2_to64();
                if k > 12 {
                    vstd::arithmetic::power2::lemma_pow2_strictly_increases(12, k as nat);
                }
                let p = pow2(k as nat) as int;
                assert(significand * p > u64::MAX) by (nonlinear_arith)
                    requires
                        significand >= 0x10_0000_0000_0000,
                        p >= 4096,
                ;
            }
            return u64::MAX;
        }
        proof {
            vstd::arithmetic::power2::lemma2_to64();
            if k < 11 {
                vstd::arithmetic::power2::lemma_pow2_strictly_increases(k as nat, 11);
            }
            let p = pow2(k as nat) as int;
            assert(significand * p <= u64::MAX) by (nonlinear_arith)
                requires
                    significand < 0x20_0000_0000_0000,
                    0 < p <= 2048,
            ;
            vstd::bits::lemma_u64_shl_is_mul(significand, k);
        }
        significand << k
    }
}

/// A figure, or zero where there is none.
pub open spec fn or_zero(o: Option<Double>) -> Double {
    match o {
        Some(d) => d,
        None => Double { bits: 0 },
    }
}

pub fn unwrap_or_zero(o: Option<Double>) -> (d: Double)
    ensures
        d == or_zero(o),
{
    match o {
        Some(d) => d,
        None => Double { bits: 0 },
    }
}

// Numbers as text

/// A letter in lower case.
pub open spec fn lowered(c: char) -> char {
    if 'A' <= c <= 'Z' {
        (c as u32 + 32) as char
    } else {
        c
    }
}

/// Whether a text is a word, in letters of either case.
pub open spec fn spells(s: Seq<char>, word: Seq<char>) -> bool {
    s.map_values(|c: char| lowered(c)) == word
}

/// A text without the sign that it starts with.
pub open spec fn unsigned(s: Seq<char>) -> Seq<char> {
    if s.len() > 0 && (s[0] == '+' || s[0] == '-') {
        s.skip(1)
    } else {
        s
    }
}

pub open spec fn some_digits(s: Seq<char>) -> bool {
    s.len() > 0 && crate::text::all_digits(s)
}

/// Digits with a point before, among or after them, or none.
pub open spec fn is_decimal(s: Seq<char>) -> bool {
    ||| some_digits(s)
    ||| s.len() > 1 && exists|p: int|
        0 <= p < s.len() && #[trigger] s[p] == '.' && crate::text::all_digits(s.take(p))
            && crate::text::all_digits(s.skip(p + 1))
}

pub open spec fn is_mark(c: char) -> bool {
    c == 'e' || c == 'E'
}

/// Whether a text is a number as `f64` reads it: with a sign or without,
/// infinity, what is not a number, or digits with a point and an exponent, each
/// of which may be missing.
pub open spec fn is_number(s: Seq<char>) -> bool {
    let t = unsigned(s);
    ||| spells(t, "inf"@)
    ||| spells(t, "infinity"@)
    ||| spells(t, "nan"@)
    ||| is_decimal(t)
    ||| exists|i: int|
        0 <= i < t.len() && is_mark(#[trigger] t[i]) && is_decimal(t.take(i)) && some_digits(
            unsigned(t.skip(i + 1)),
        )
}

fn spelled(v: &Vec<char>, word: &str) -> (r: bool)
    ensures
        r == spells(v@, word@),
{
    let w: Vec<char> = to_chars(word);
    let ghost low = v@.map_values(|c: char| lowered(c));
    if v.len() != w.len() {
        return false;
    }
    let mut i: usize = 0;
    while i < v.len()
        invariant
            i <= v@.len(),
            v@.len() == w@.len(),
            w@ == word@,
            low == v@.map_values(|c: char| lowered(c)),
            forall|j: int| 0 <= j < i ==> low[j] == w@[j],
        decreases v@.len() - i,
    {
        let c: char = v[i];
        let c: char = if 'A' <= c && c <= 'Z' {
            (c as u8 + 32) as char
        } else {
            c
        };
        assert(low[i as int] == c);
        if c != w[i] {
            return false;
        }
        i = i + 1;
    }
    assert(low =~= w@);
    true
}

fn without_sign(v: &Vec<char>) -> (r: Vec<char>)
    ensures
        r@ == unsigned(v@),
{
    let n: usize = v.len();
    let from: usize = if n > 0 && (v[0] == '+' || v[0] == '-') {
        1
    } else {
        0
    };
    let r: Vec<char> = part(v, from, n);
    assert(r@ =~= unsigned(v@));
    r
}

fn part(v: &Vec<char>, from: usize, to: usize) -> (r: Vec<char>)
    requires
        from <= to <= v@.len(),
    ensures
        r@ == v@.subrange(from as int, to as int),
{
    to_chars(from_chars(v, from, to).as_str())
}

fn only_digits(v: &Vec<char>, from: usize, to: usize) -> (r: bool)
    requires
        from <= to <= v@.len(),
    ensures
        r == crate::text::all_digits(v@.subrange(from as int, to as int)),
{
    let ghost s = v@.subrange(from as int, to as int);
    let mut i: usize = from;
    while i < to
        invariant
            from <= i <= to <= v@.len(),
            s == v@.subrange(from as int, to as int),
            forall|j: int| 0 <= j < i - from ==> crate::text::is_digit(#[trigger] s[j]),
        decreases to - i,
    {
        assert(s[i - from] == v@[i as int]);
        if !('0' <= v[i] && v[i] <= '9') {
            return false;
        }
        i = i + 1;
    }
    true
}

fn decimal_notation(v: &Vec<char>, n: usize) -> (r: bool)
    requires
        n <= v@.len(),
    ensures
        r == is_decimal(v@.take(n as int)),
{
    let ghost s = v@.take(n as int);
    let mut p: usize = 0;
    while p < n
        invariant
            p <= n <= v@.len(),
            s == v@.take(n as int),
            forall|j: int| 0 <= j < p ==> #[trigger] s[j] != '.',
        decreases n - p,
    {
        assert(s[p as int] == v@[p as int]);
        if v[p] == '.' {
            assert(v@.subrange(0, p as int) =~= s.take(p as int));
            assert(v@.subrange(p as int + 1, n as int) =~= s.skip(p as int + 1));
            let r: bool = n > 1 && only_digits(v, 0, p) && only_digits(v, p + 1, n);
            proof {
                if is_decimal(s) {
                    assert(!crate::text::is_digit(s[p as int]));
                    let q = choose|q: int|
                        0 <= q < s.len() && #[trigger] s[q] == '.' && crate::text::all_digits(
                            s.take(q),
                        ) && crate::text::all_digits(s.skip(q + 1));
                    if q > p {
                        assert(s.take(q)[p as int] == s[p as int]);
                        assert(!crate::text::is_digit(s.take(q)[p as int]));
                    }
                }
            }
            return r;
        }
        p = p + 1;
    }
    assert(v@.subrange(0, n as int) =~= s);
    n > 0 && only_digits(v, 0, n)
}

proof fn lemma_no_mark(s: Seq<char>, i: int)
    requires
        0 <= i < s.len(),
        is_mark(s[i]),
    ensures
        !is_decimal(s),
{
    if is_decimal(s) {
        assert(!crate::text::is_digit(s[i]));
        let p = choose|p: int|
            0 <= p < s.len() && #[trigger] s[p] == '.' && crate::text::all_digits(s.take(p))
                && crate::text::all_digits(s.skip(p + 1));
        if i < p {
            assert(s.take(p)[i] == s[i]);
        } else if i > p {
            assert(s.skip(p + 1)[i - p - 1] == s[i]);
        }
    }
}

/// Whether `f64` reads a text.
pub fn reads(s: &str) -> (r: bool)
    ensures
        r == is_number(s@),
{
    let t: Vec<char> = without_sign(&to_chars(s));
    let n: usize = t.len();
    if spelled(&t, "inf") || spelled(&t, "infinity") || spelled(&t, "nan") {
        return true;
    }
    let mut i: usize = 0;
    while i < n
        invariant
            i <= n,
            n == t@.len(),
            t@ == unsigned(s@),
            !spells(t@, "inf"@),
            !spells(t@, "infinity"@),
            !spells(t@, "nan"@),
            forall|j: int| 0 <= j < i ==> !is_mark(#[trigger] t@[j]),
        decreases n - i,
    {
        if t[i] == 'e' || t[i] == 'E' {
            let rest: Vec<char> = without_sign(&part(&t, i + 1, n));
            assert(t@.subrange(i as int + 1, n as int) =~= t@.skip(i as int + 1));
            assert(rest@.subrange(0, rest@.len() as int) =~= rest@);
            let m: usize = rest.len();
            let r: bool = decimal_notation(&t, i) && m > 0 && only_digits(&rest, 0, m);
            proof {
                lemma_no_mark(t@, i as int);
                assert forall|k: int|
                    0 <= k < t@.len() && is_mark(#[trigger] t@[k]) && is_decimal(
                        t@.take(k),
                    ) implies k == i by {
                    if k > i {
                        assert(t@.take(k)[i as int] == t@[i as int]);
                        lemma_no_mark(t@.take(k), i as int);
                    }
                }
            }
            return r;
        }
        i = i + 1;
    }
    assert(t@.take(n as int) =~= t@);
    decimal_notation(&t, n)
}

/// A text that is a number, as it is.
pub fn number(s: String) -> (r: Option<String>)
    ensures
        crate::text::opt_view(r) == (if is_number(s@) {
            Some(s@)
        } else {
            None
        }),
{
    if reads(s.as_str()) {
        Some(s)
    } else {
        None
    }
}

/// A whole number from 2^52 on is its significand; adding one to the exponent
/// doubles the number, and no fraction is rounded up.
pub proof fn what_a_number_is_without_its_fraction(d: Double, twice: Double)
    requires
        0 < d.bits / ONE_EXPONENT < 1075,
        twice.bits == d.bits + ONE_EXPONENT,
    ensures
        d.bits / ONE_EXPONENT == 1074 ==> twice.whole() == ONE_EXPONENT + d.bits % ONE_EXPONENT,
        twice.whole() / 2 == d.whole(),
        d.whole() < 0x10_0000_0000_0000,
{
    let e = d.bits / ONE_EXPONENT;
    let f = d.bits % ONE_EXPONENT;
    let m = (ONE_EXPONENT + f) as nat;
    assert(twice.bits / ONE_EXPONENT == e + 1);
    assert(twice.bits % ONE_EXPONENT == f);
    let k = (1075 - e) as nat;
    vstd::arithmetic::power2::lemma_pow2_unfold(k);
    vstd::arithmetic::power2::lemma_pow2_pos((k - 1) as nat);
    vstd::arithmetic::power2::lemma2_to64();
    vstd::arithmetic::div_mod::lemma_div_denominator(m as int, pow2((k - 1) as nat) as int, 2);
    assert(pow2((k - 1) as nat) * 2 == pow2(k)) by (nonlinear_arith)
        requires
            pow2(k) == 2 * pow2((k - 1) as nat),
    ;
    assert(m as int / pow2(k) as int <= m / 2) by {
        vstd::arithmetic::div_mod::lemma_div_is_ordered_by_denominator(
            m as int,
            2,
            pow2(k) as int,
        );
    }
    assert(pow2(0) == 1);
    assert(d.whole() == m / pow2(k));
    if e == 1074 {
        assert(m * pow2(0) == m) by (nonlinear_arith)
            requires
                pow2(0) == 1,
        ;
        assert(twice.bits / ONE_EXPONENT == 1075);
        assert(twice.whole() == m);
        assert(m / pow2(0) == m);
    } else {
        assert(twice.whole() == m / pow2((k - 1) as nat));
    }
}

/// Of two numbers at most one is greater. What is below zero is below what is
/// above, and among those below zero the order of the bits is turned round;
/// nothing compares with what is no number.
pub proof fn how_numbers_are_ordered(a: Double, b: Double)
    ensures
        !(a.greater(b) && b.greater(a)),
        a.is_nan() || b.is_nan() ==> !a.greater(b) && !a.reaches(b),
        !a.is_nan() && !b.is_nan() ==> (a.reaches(b) <==> !b.greater(a)),
        a.bits <= 0x7ff0_0000_0000_0000 && b.bits <= 0x7ff0_0000_0000_0000 ==> (a.greater(b)
            <==> a.bits > b.bits),
        0x8000_0000_0000_0000 <= a.bits <= 0xfff0_0000_0000_0000 && 0x8000_0000_0000_0000 <= b.bits
            <= 0xfff0_0000_0000_0000 ==> (a.greater(b) <==> a.bits < b.bits),
        0 < a.bits <= 0x7ff0_0000_0000_0000 && 0x8000_0000_0000_0000 <= b.bits
            <= 0xfff0_0000_0000_0000 ==> a.greater(b),
        a.bits == 0 && b.bits == 0x8000_0000_0000_0000 ==> !a.greater(b) && !b.greater(a)
            && a.reaches(b),
{
}

/// Digits are a number, with a sign before them, a point among them and an
/// exponent behind them; nothing is no number.
pub proof fn what_is_a_number(a: nat, b: nat, sign: char, mark: char)
    requires
        sign == '+' || sign == '-',
        mark == 'e' || mark == 'E',
    ensures
        ({
            let x = crate::text::decimal(a);
            let y = crate::text::decimal(b);
            &&& is_number(x)
            &&& is_number(seq![sign] + x)
            &&& is_number(x.push('.') + y)
            &&& is_number(seq![sign] + x.push('.') + y)
            &&& is_number(x.push(mark) + y)
            &&& is_number(x.push(mark).push(sign) + y)
        }),
        !is_number(Seq::empty()),
        !is_number(seq![sign]),
        !is_number(seq!['.']),
        !is_number(seq![mark]),
{
    let x = crate::text::decimal(a);
    let y = crate::text::decimal(b);
    crate::text::decimal_reads_back(a);
    crate::text::decimal_reads_back(b);
    assert(crate::text::is_digit(x[0]));
    assert(unsigned(x) == x);
    assert(unsigned(y) == y) by {
        assert(crate::text::is_digit(y[0]));
    }
    assert((seq![sign] + x).skip(1) =~= x);
    assert(unsigned(seq![sign] + x) == x);
    let p = x.push('.') + y;
    assert(p[x.len() as int] == '.');
    assert(p.take(x.len() as int) =~= x);
    assert(p.skip(x.len() as int + 1) =~= y);
    assert(p[0] == x[0]);
    assert(is_decimal(p));
    assert(unsigned(p) == p);
    let q = seq![sign] + x.push('.') + y;
    assert(q.skip(1) =~= p);
    assert(unsigned(q) == p);
    let r = x.push(mark) + y;
    assert(r[0] == x[0]);
    assert(is_mark(r[x.len() as int]));
    assert(r.take(x.len() as int) =~= x);
    assert(r.skip(x.len() as int + 1) =~= y);
    assert(unsigned(r) == r);
    let t = x.push(mark).push(sign) + y;
    assert(t[0] == x[0]);
    assert(is_mark(t[x.len() as int]));
    assert(t.take(x.len() as int) =~= x);
    let z = t.skip(x.len() as int + 1);
    assert(z =~= seq![sign] + y);
    assert(z.skip(1) =~= y);
    assert(unsigned(z) == y);
    assert(unsigned(t) == t);
    lemma_short_is_no_number(Seq::empty());
    lemma_short_is_no_number(seq![sign]);
    lemma_short_is_no_number(seq!['.']);
    lemma_short_is_no_number(seq![mark]);
}

proof fn lemma_short_is_no_number(s: Seq<char>)
    requires
        s.len() == 0 || s.len() == 1 && !crate::text::is_digit(s[0]),
    ensures
        !is_number(s),
{
    reveal_strlit("inf");
    reveal_strlit("infinity");
    reveal_strlit("nan");
    let t = unsigned(s);
    assert(t.len() <= 1);
    assert(t.map_values(|c: char| lowered(c)).len() <= 1);
    assert("inf"@.len() == 3 && "infinity"@.len() == 8 && "nan"@.len() == 3);
    assert(t.len() == 1 ==> t[0] == s[0]);
    assert(!is_decimal(t));
    if t.len() == 1 {
        assert(t.take(0).len() == 0);
        assert(!is_decimal(t.take(0)));
    }
}

} // verus!

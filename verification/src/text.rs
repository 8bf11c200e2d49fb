//! Text: the string operations that the rest of the engine is written with.
//!
//! A string is a sequence of characters. Each executable function here is
//! stated against a spec function over `Seq<char>`.

use vstd::prelude::*;
use vstd::string::{StrSliceExecFns, StringExecFns};

verus! {

/// `String::push`: the string grows by one character at its end.
#[verifier::external_body]
pub(crate) fn push_char(s: &mut String, c: char)
    ensures
        final(s)@ == old(s)@.push(c),
{
    s.push(c)
}

/// The characters of a string.
pub fn to_chars(s: &str) -> (v: Vec<char>)
    ensures
        v@ == s@,
{
    let mut v: Vec<char> = Vec::new();
    for c in it: s.chars()
        invariant
            it.seq() == s@,
            v@ == s@.take(it.index() as int),
    {
        v.push(c);
        proof {
            assert(s@.take(it.index() as int + 1) =~= s@.take(it.index() as int).push(
                s@[it.index() as int],
            ));
        }
    }
    proof {
        assert(s@.take(s@.len() as int) =~= s@);
    }
    v
}

/// The string made of `v[from..to]`.
pub fn from_chars(v: &Vec<char>, from: usize, to: usize) -> (s: String)
    requires
        from <= to <= v@.len(),
    ensures
        s@ == v@.subrange(from as int, to as int),
{
    let mut s: String = String::new();
    let mut i: usize = from;
    while i < to
        invariant
            from <= i <= to <= v@.len(),
            s@ == v@.subrange(from as int, i as int),
        decreases to - i,
    {
        push_char(&mut s, v[i]);
        proof {
            assert(v@.subrange(from as int, i as int + 1) =~= v@.subrange(
                from as int,
                i as int,
            ).push(v@[i as int]));
        }
        i = i + 1;
    }
    s
}

/// Whether two strings are the same.
pub fn same(a: &str, b: &str) -> (r: bool)
    ensures
        r == (a@ == b@),
{
    let x: Vec<char> = to_chars(a);
    let y: Vec<char> = to_chars(b);
    same_chars(&x, &y)
}

pub fn same_chars(x: &Vec<char>, y: &Vec<char>) -> (r: bool)
    ensures
        r == (x@ == y@),
{
    if x.len() != y.len() {
        return false;
    }
    let mut i: usize = 0;
    while i < x.len()
        invariant
            x@.len() == y@.len(),
            i <= x@.len(),
            forall|j: int| 0 <= j < i ==> x@[j] == y@[j],
        decreases x@.len() - i,
    {
        if x[i] != y[i] {
            assert(x@[i as int] != y@[i as int]);
            return false;
        }
        i = i + 1;
    }
    assert(x@ =~= y@);
    true
}

/// A copy of a string.
pub fn owned(s: &str) -> (r: String)
    ensures
        r@ == s@,
{
    String::from_str(s)
}

/// `a` followed by `b`.
pub fn cat2(a: &str, b: &str) -> (r: String)
    ensures
        r@ == a@ + b@,
{
    let mut s: String = String::from_str(a);
    s.append(b);
    s
}

/// `a`, `b` and `c` in a row.
pub fn cat3(a: &str, b: &str, c: &str) -> (r: String)
    ensures
        r@ == a@ + b@ + c@,
{
    let mut s: String = cat2(a, b);
    s.append(c);
    s
}

/// `a`, `b`, `c` and `d` in a row.
pub fn cat4(a: &str, b: &str, c: &str, d: &str) -> (r: String)
    ensures
        r@ == a@ + b@ + c@ + d@,
{
    let mut s: String = cat3(a, b, c);
    s.append(d);
    s
}

/// `a`, `b`, `c`, `d` and `e` in a row.
pub fn cat5(a: &str, b: &str, c: &str, d: &str, e: &str) -> (r: String)
    ensures
        r@ == a@ + b@ + c@ + d@ + e@,
{
    let mut s: String = cat4(a, b, c, d);
    s.append(e);
    s
}

/// What a list of strings holds.
pub open spec fn views(v: Seq<String>) -> Seq<Seq<char>> {
    v.map_values(|s: String| s@)
}

/// What an optional string holds.
pub open spec fn opt_view(o: Option<String>) -> Option<Seq<char>> {
    match o {
        Some(s) => Some(s@),
        None => None,
    }
}

/// A copy of an optional string.
pub fn opt_owned(o: &Option<String>) -> (r: Option<String>)
    ensures
        opt_view(r) == opt_view(*o),
{
    match o {
        Some(s) => Some(owned(s.as_str())),
        None => None,
    }
}

/// Whether `s` occurs in the list.
pub fn list_has(v: &Vec<String>, s: &str) -> (r: bool)
    ensures
        r == views(v@).contains(s@),
{
    let mut i: usize = 0;
    while i < v.len()
        invariant
            i <= v@.len(),
            forall|j: int| 0 <= j < i ==> v@[j]@ != s@,
        decreases v@.len() - i,
    {
        if same(v[i].as_str(), s) {
            assert(views(v@)[i as int] == s@);
            return true;
        }
        i = i + 1;
    }
    assert forall|j: int| 0 <= j < views(v@).len() implies views(v@)[j] != s@ by {
        assert(v@[j]@ != s@);
    }
    false
}

// Decimal numbers.

/// The decimal digit `d`.
pub open spec fn digit(d: nat) -> char {
    (48 + d) as char
}

pub open spec fn is_digit(c: char) -> bool {
    '0' <= c <= '9'
}

/// The decimal notation of `n`, without leading zeros.
pub open spec fn decimal(n: nat) -> Seq<char>
    decreases n,
{
    if n < 10 {
        seq![digit(n)]
    } else {
        decimal(n / 10).push(digit(n % 10))
    }
}

/// The number that a row of decimal digits writes.
pub open spec fn dec_value(s: Seq<char>) -> nat
    decreases s.len(),
{
    if s.len() == 0 {
        0
    } else {
        dec_value(s.drop_last()) * 10 + (s.last() as nat - 48) as nat
    }
}

pub open spec fn all_digits(s: Seq<char>) -> bool {
    forall|i: int| 0 <= i < s.len() ==> is_digit(#[trigger] s[i])
}

/// What an unsigned integer reads from a string: an optional `+`, then at
/// least one decimal digit and nothing else, up to `max`.
pub open spec fn parse_dec(s: Seq<char>, max: nat) -> Option<nat> {
    let digits = if s.len() > 0 && s[0] == '+' {
        s.skip(1)
    } else {
        s
    };
    if digits.len() > 0 && all_digits(digits) && dec_value(digits) <= max {
        Some(dec_value(digits))
    } else {
        None
    }
}

/// A decimal number is made of digits, and reading it back gives the number.
pub proof fn decimal_reads_back(n: nat)
    ensures
        decimal(n).len() > 0,
        all_digits(decimal(n)),
        dec_value(decimal(n)) == n,
        forall|max: nat| n <= max ==> #[trigger] parse_dec(decimal(n), max) == Some(n),
    decreases n,
{
    let s = decimal(n);
    if n < 10 {
        assert(s.drop_last() =~= Seq::<char>::empty());
        assert(s.last() == digit(n));
        assert(dec_value(s.drop_last()) == 0);
    } else {
        decimal_reads_back(n / 10);
        assert(s.drop_last() =~= decimal(n / 10));
        assert(s.last() == digit(n % 10));
    }
    assert(dec_value(s) == dec_value(s.drop_last()) * 10 + (s.last() as nat - 48) as nat);
    assert(is_digit(s[0]));
}

/// `n` in decimal notation.
pub fn decimal_str(n: u64) -> (s: String)
    ensures
        s@ == decimal(n as nat),
    decreases n,
{
    let d: u8 = (n % 10) as u8;
    let c: char = (48u8 + d) as char;
    if n < 10 {
        let mut s: String = String::new();
        push_char(&mut s, c);
        s
    } else {
        let mut s: String = decimal_str(n / 10);
        push_char(&mut s, c);
        s
    }
}

/// An integer in decimal notation, with a minus sign if it is negative.
pub open spec fn signed(n: int) -> Seq<char> {
    if n < 0 {
        "-"@ + decimal((-n) as nat)
    } else {
        decimal(n as nat)
    }
}

pub fn signed_str(n: i32) -> (s: String)
    ensures
        s@ == signed(n as int),
{
    if n < 0 {
        let m: String = decimal_str((0 - n as i64) as u64);
        cat2("-", m.as_str())
    } else {
        decimal_str(n as u64)
    }
}

proof fn lemma_dec_value_monotone(s: Seq<char>, i: int)
    requires
        0 <= i <= s.len(),
        all_digits(s),
    ensures
        dec_value(s.take(i)) <= dec_value(s),
    decreases s.len(),
{
    if i == s.len() {
        assert(s.take(i) =~= s);
    } else {
        assert(all_digits(s.drop_last()));
        lemma_dec_value_monotone(s.drop_last(), i);
        assert(s.drop_last().take(i) =~= s.take(i));
    }
}

/// Read an unsigned integer of at most `max` out of `v[from..to]`.
pub fn parse_dec_range(v: &Vec<char>, from: usize, to: usize, max: u64) -> (r: Option<u64>)
    requires
        from <= to <= v@.len(),
    ensures
        r is Some == parse_dec(v@.subrange(from as int, to as int), max as nat) is Some,
        r is Some ==> r->0 == parse_dec(v@.subrange(from as int, to as int), max as nat)->0,
{
    let ghost whole = v@.subrange(from as int, to as int);
    let start: usize = if from < to && v[from] == '+' { from + 1 } else { from };
    let ghost digits = v@.subrange(start as int, to as int);
    proof {
        if start == from {
            assert(digits =~= whole);
        } else {
            assert(digits =~= whole.skip(1));
        }
        if whole.len() > 0 {
            assert(whole[0] == v@[from as int]);
        }
    }
    if start == to {
        return None;
    }
    let mut n: u64 = 0;
    let mut i: usize = start;
    while i < to
        invariant
            from <= start <= i <= to <= v@.len(),
            digits == v@.subrange(start as int, to as int),
            whole == v@.subrange(from as int, to as int),
            n <= max,
            n == dec_value(digits.take(i - start)),
            forall|j: int| start <= j < i ==> is_digit(#[trigger] v@[j]),
            digits.len() > 0,
            parse_dec(whole, max as nat) == (if all_digits(digits) && dec_value(digits) <= max {
                Some(dec_value(digits))
            } else {
                None
            }),
        decreases to - i,
    {
        let c: char = v[i];
        if !('0' <= c && c <= '9') {
            proof {
                assert(digits[i - start] == c);
                assert(!all_digits(digits));
            }
            return None;
        }
        let d: u64 = (c as u32 - 48) as u64;
        let ghost longer = digits.take(i - start + 1);
        proof {
            assert(longer.drop_last() =~= digits.take(i - start));
            assert(longer.last() == c);
            if all_digits(digits) {
                lemma_dec_value_monotone(digits, i - start + 1);
            }
        }
        if n > max / 10 || (n == max / 10 && d > max % 10) {
            proof {
                assert(dec_value(longer) > max);
            }
            return None;
        }
        n = n * 10 + d;
        i = i + 1;
    }
    proof {
        assert(digits.take(to - start) =~= digits);
        assert forall|j: int| 0 <= j < digits.len() implies is_digit(#[trigger] digits[j]) by {
            assert(is_digit(v@[start + j]));
        }
    }
    Some(n)
}

/// `str::parse::<u64>`.
pub fn parse_u64(s: &str) -> (r: Option<u64>)
    ensures
        r is Some == parse_dec(s@, u64::MAX as nat) is Some,
        r is Some ==> r->0 == parse_dec(s@, u64::MAX as nat)->0,
{
    let v: Vec<char> = to_chars(s);
    proof {
        assert(v@.subrange(0, v@.len() as int) =~= s@);
    }
    parse_dec_range(&v, 0, v.len(), u64::MAX)
}

/// `str::parse::<u32>`.
pub fn parse_u32(s: &str) -> (r: Option<u32>)
    ensures
        r is Some == parse_dec(s@, u32::MAX as nat) is Some,
        r is Some ==> r->0 == parse_dec(s@, u32::MAX as nat)->0,
{
    let v: Vec<char> = to_chars(s);
    proof {
        assert(v@.subrange(0, v@.len() as int) =~= s@);
    }
    match parse_dec_range(&v, 0, v.len(), u32::MAX as u64) {
        Some(n) => Some(n as u32),
        None => None,
    }
}

/// `str::parse::<u16>`.
pub fn parse_u16(s: &str) -> (r: Option<u16>)
    ensures
        r is Some == parse_dec(s@, u16::MAX as nat) is Some,
        r is Some ==> r->0 == parse_dec(s@, u16::MAX as nat)->0,
{
    let v: Vec<char> = to_chars(s);
    proof {
        assert(v@.subrange(0, v@.len() as int) =~= s@);
    }
    match parse_dec_range(&v, 0, v.len(), u16::MAX as u64) {
        Some(n) => Some(n as u16),
        None => None,
    }
}

// Pieces of text.

/// The pieces between the occurrences of `c`: one more than there are of them.
pub open spec fn split_on(s: Seq<char>, c: char) -> Seq<Seq<char>>
    decreases s.len(),
{
    if s.len() == 0 {
        seq![Seq::empty()]
    } else {
        let before = split_on(s.drop_last(), c);
        if s.last() == c {
            before.push(Seq::empty())
        } else {
            before.drop_last().push(before.last().push(s.last()))
        }
    }
}

/// `str::split` at a character.
pub fn split_char(s: &str, c: char) -> (parts: Vec<String>)
    ensures
        views(parts@) == split_on(s@, c),
        parts@.len() > 0,
{
    let v: Vec<char> = to_chars(s);
    let mut parts: Vec<String> = Vec::new();
    let mut piece: String = String::new();
    let mut i: usize = 0;
    proof {
        assert(views(parts@).push(piece@) =~= split_on(s@.take(0), c));
    }
    while i < v.len()
        invariant
            v@ == s@,
            i <= v@.len(),
            views(parts@).push(piece@) == split_on(s@.take(i as int), c),
        decreases v@.len() - i,
    {
        let ghost so_far = s@.take(i as int);
        let ghost longer = s@.take(i as int + 1);
        let ghost parts0 = views(parts@);
        let ghost piece0 = piece@;
        proof {
            assert(longer.drop_last() =~= so_far);
            assert(longer.last() == v@[i as int]);
            assert(parts0.push(piece0).drop_last() =~= parts0);
            assert(parts0.push(piece0).last() == piece0);
        }
        if v[i] == c {
            parts.push(piece);
            piece = String::new();
            proof {
                assert(views(parts@) =~= parts0.push(piece0));
            }
        } else {
            push_char(&mut piece, v[i]);
        }
        i = i + 1;
    }
    let ghost parts0 = views(parts@);
    let ghost piece0 = piece@;
    parts.push(piece);
    proof {
        assert(views(parts@) =~= parts0.push(piece0));
        assert(s@.take(v@.len() as int) =~= s@);
    }
    parts
}

/// Splitting at a character and joining with it gives the text back.
pub proof fn split_then_join(s: Seq<char>, c: char)
    ensures
        split_on(s, c).len() > 0,
        joined(split_on(s, c), seq![c]) == s,
    decreases s.len(),
{
    let parts = split_on(s, c);
    if s.len() > 0 {
        let before = split_on(s.drop_last(), c);
        split_then_join(s.drop_last(), c);
        if s.last() == c {
            assert(parts.drop_last() =~= before);
            assert(joined(parts, seq![c]) =~= s.drop_last().push(c));
        } else {
            assert(parts.drop_last() =~= before.drop_last());
            if before.len() == 1 {
                assert(joined(parts, seq![c]) =~= s.drop_last().push(s.last()));
            } else {
                assert(joined(parts, seq![c]) =~= s.drop_last().push(s.last()));
            }
        }
        assert(s.drop_last().push(s.last()) =~= s);
    } else {
        assert(joined(parts, seq![c]) =~= s);
    }
}

/// A line without the carriage return that ended it.
pub open spec fn without_cr(line: Seq<char>) -> Seq<char> {
    if line.len() > 0 && line.last() == '\r' {
        line.drop_last()
    } else {
        line
    }
}

/// The lines of a text: what ends in a line feed, without the line feed and a
/// carriage return before it, and what follows the last line feed unless empty.
pub open spec fn lines_of(s: Seq<char>) -> Seq<Seq<char>> {
    let parts = split_on(s, '\n');
    let ended = parts.drop_last().map_values(|l: Seq<char>| without_cr(l));
    if parts.last().len() == 0 {
        ended
    } else {
        ended.push(parts.last())
    }
}

/// `str::lines`.
pub fn lines(s: &str) -> (r: Vec<String>)
    ensures
        views(r@) == lines_of(s@),
{
    let parts: Vec<String> = split_char(s, '\n');
    let ghost pv = split_on(s@, '\n');
    let mut r: Vec<String> = Vec::new();
    let n: usize = parts.len() - 1;
    let mut i: usize = 0;
    while i < n
        invariant
            i <= n,
            n == parts@.len() - 1,
            views(parts@) == pv,
            views(r@) == pv.take(i as int).map_values(|l: Seq<char>| without_cr(l)),
        decreases n - i,
    {
        let ghost r0 = views(r@);
        let l: Vec<char> = to_chars(parts[i].as_str());
        let end: usize = if l.len() > 0 && l[l.len() - 1] == '\r' { l.len() - 1 } else { l.len() };
        let line: String = from_chars(&l, 0, end);
        proof {
            assert(pv[i as int] == parts@[i as int]@);
            if end == l@.len() {
                assert(l@.subrange(0, end as int) =~= l@);
            } else {
                assert(l@.subrange(0, end as int) =~= l@.drop_last());
            }
            assert(line@ == without_cr(pv[i as int]));
        }
        r.push(line);
        proof {
            assert(views(r@) =~= r0.push(line@));
            assert(pv.take(i as int + 1).map_values(|l: Seq<char>| without_cr(l)) =~= pv.take(
                i as int,
            ).map_values(|l: Seq<char>| without_cr(l)).push(without_cr(pv[i as int])));
        }
        i = i + 1;
    }
    let ghost r0 = views(r@);
    proof {
        assert(pv.take(n as int) =~= pv.drop_last());
        assert(pv.last() == parts@[n as int]@);
    }
    if parts[n].as_str().unicode_len() > 0 {
        let last: String = owned(parts[n].as_str());
        r.push(last);
        proof {
            assert(views(r@) =~= r0.push(last@));
        }
    }
    r
}

/// A character of Unicode's `White_Space` property.
pub open spec fn white(c: char) -> bool {
    let n = c as u32;
    ||| 9 <= n <= 13
    ||| n == 0x20
    ||| n == 0x85
    ||| n == 0xa0
    ||| n == 0x1680
    ||| 0x2000 <= n <= 0x200a
    ||| n == 0x2028
    ||| n == 0x2029
    ||| n == 0x202f
    ||| n == 0x205f
    ||| n == 0x3000
}

pub fn is_white(c: char) -> (r: bool)
    ensures
        r == white(c),
{
    let n: u32 = c as u32;
    (9 <= n && n <= 13) || n == 0x20 || n == 0x85 || n == 0xa0 || n == 0x1680 || (0x2000 <= n && n
        <= 0x200a) || n == 0x2028 || n == 0x2029 || n == 0x202f || n == 0x205f || n == 0x3000
}

/// The text from its first character that is not white space.
pub open spec fn trimmed_start(s: Seq<char>) -> Seq<char>
    decreases s.len(),
{
    if s.len() > 0 && white(s[0]) {
        trimmed_start(s.skip(1))
    } else {
        s
    }
}

/// The text up to its last character that is not white space.
pub open spec fn trimmed_end(s: Seq<char>) -> Seq<char>
    decreases s.len(),
{
    if s.len() > 0 && white(s.last()) {
        trimmed_end(s.drop_last())
    } else {
        s
    }
}

/// The text without the white space around it.
pub open spec fn trimmed(s: Seq<char>) -> Seq<char> {
    trimmed_end(trimmed_start(s))
}

fn first_black(v: &Vec<char>) -> (i: usize)
    ensures
        i <= v@.len(),
        v@.skip(i as int) == trimmed_start(v@),
{
    let mut i: usize = 0;
    assert(v@.skip(0) =~= v@);
    while i < v.len() && is_white(v[i])
        invariant
            i <= v@.len(),
            trimmed_start(v@.skip(i as int)) == trimmed_start(v@),
        decreases v@.len() - i,
    {
        assert(v@.skip(i as int)[0] == v@[i as int]);
        assert(v@.skip(i as int).skip(1) =~= v@.skip(i as int + 1));
        i = i + 1;
    }
    proof {
        if i < v@.len() {
            assert(v@.skip(i as int)[0] == v@[i as int]);
        }
    }
    i
}

fn last_black(v: &Vec<char>, from: usize) -> (i: usize)
    requires
        from <= v@.len(),
    ensures
        from <= i <= v@.len(),
        v@.subrange(from as int, i as int) == trimmed_end(v@.skip(from as int)),
{
    let mut i: usize = v.len();
    assert(v@.subrange(from as int, i as int) =~= v@.skip(from as int));
    while i > from && is_white(v[i - 1])
        invariant
            from <= i <= v@.len(),
            trimmed_end(v@.subrange(from as int, i as int)) == trimmed_end(v@.skip(from as int)),
        decreases i,
    {
        let ghost cur = v@.subrange(from as int, i as int);
        assert(cur.last() == v@[i - 1]);
        assert(cur.drop_last() =~= v@.subrange(from as int, i - 1));
        i = i - 1;
    }
    proof {
        let cur = v@.subrange(from as int, i as int);
        if i > from {
            assert(cur.last() == v@[i - 1]);
        }
    }
    i
}

/// `str::trim`.
pub fn trim(s: &str) -> (r: String)
    ensures
        r@ == trimmed(s@),
{
    let v: Vec<char> = to_chars(s);
    let from: usize = first_black(&v);
    let to: usize = last_black(&v, from);
    from_chars(&v, from, to)
}

/// `str::trim_end`.
pub fn trim_end(s: &str) -> (r: String)
    ensures
        r@ == trimmed_end(s@),
{
    let v: Vec<char> = to_chars(s);
    assert(v@.skip(0) =~= v@);
    let to: usize = last_black(&v, 0);
    from_chars(&v, 0, to)
}

/// The words of a text that are complete (followed by white space), and the
/// characters of the one that is not.
pub open spec fn words_and_rest(s: Seq<char>) -> (Seq<Seq<char>>, Seq<char>)
    decreases s.len(),
{
    if s.len() == 0 {
        (Seq::empty(), Seq::empty())
    } else {
        let (done, cur) = words_and_rest(s.drop_last());
        if !white(s.last()) {
            (done, cur.push(s.last()))
        } else if cur.len() == 0 {
            (done, cur)
        } else {
            (done.push(cur), Seq::empty())
        }
    }
}

/// The words of a text: what stands between white space.
pub open spec fn words_of(s: Seq<char>) -> Seq<Seq<char>> {
    let (done, cur) = words_and_rest(s);
    if cur.len() == 0 {
        done
    } else {
        done.push(cur)
    }
}

/// `str::split_whitespace`.
pub fn words(s: &str) -> (r: Vec<String>)
    ensures
        views(r@) == words_of(s@),
{
    let v: Vec<char> = to_chars(s);
    let mut r: Vec<String> = Vec::new();
    let mut start: usize = 0;
    let mut i: usize = 0;
    proof {
        assert(views(r@) =~= Seq::empty());
        assert(v@.subrange(0, 0) =~= Seq::empty());
        assert(s@.take(0) =~= Seq::empty());
    }
    while i < v.len()
        invariant
            v@ == s@,
            start <= i <= v@.len(),
            words_and_rest(s@.take(i as int)) == (views(r@), v@.subrange(start as int, i as int)),
        decreases v@.len() - i,
    {
        let ghost longer = s@.take(i as int + 1);
        let ghost r0 = views(r@);
        let ghost cur = v@.subrange(start as int, i as int);
        proof {
            assert(longer.drop_last() =~= s@.take(i as int));
            assert(longer.last() == v@[i as int]);
        }
        if is_white(v[i]) {
            if start < i {
                let w: String = from_chars(&v, start, i);
                r.push(w);
                proof {
                    assert(views(r@) =~= r0.push(cur));
                }
            }
            start = i + 1;
            proof {
                assert(v@.subrange(start as int, i as int + 1) =~= Seq::empty());
            }
        } else {
            proof {
                assert(v@.subrange(start as int, i as int + 1) =~= cur.push(v@[i as int]));
            }
        }
        i = i + 1;
    }
    let ghost r0 = views(r@);
    let ghost cur = v@.subrange(start as int, i as int);
    proof {
        assert(s@.take(v@.len() as int) =~= s@);
    }
    if start < i {
        let w: String = from_chars(&v, start, i);
        r.push(w);
        proof {
            assert(views(r@) =~= r0.push(cur));
        }
    }
    r
}

/// Whether `t` stands in `s` at position `i`.
pub open spec fn occurs_at(s: Seq<char>, t: Seq<char>, i: int) -> bool {
    0 <= i && i + t.len() <= s.len() && s.subrange(i, i + t.len()) == t
}

pub open spec fn has_prefix(s: Seq<char>, t: Seq<char>) -> bool {
    occurs_at(s, t, 0)
}

pub open spec fn has_suffix(s: Seq<char>, t: Seq<char>) -> bool {
    occurs_at(s, t, s.len() - t.len())
}

/// Whether `t` stands anywhere in `s`.
pub open spec fn has_part(s: Seq<char>, t: Seq<char>) -> bool {
    exists|i: int| occurs_at(s, t, i)
}

pub fn chars_at(v: &Vec<char>, t: &Vec<char>, i: usize) -> (r: bool)
    ensures
        r == occurs_at(v@, t@, i as int),
{
    if v.len() < t.len() || v.len() - t.len() < i {
        return false;
    }
    let n: usize = v.len();
    let mut j: usize = 0;
    while j < t.len()
        invariant
            n == v@.len(),
            i + t@.len() <= n,
            j <= t@.len(),
            forall|k: int| 0 <= k < j ==> v@[i + k] == t@[k],
        decreases t@.len() - j,
    {
        if v[i + j] != t[j] {
            proof {
                let sub = v@.subrange(i as int, i + t@.len());
                assert(sub[j as int] == v@[i + j]);
            }
            return false;
        }
        j = j + 1;
    }
    assert(v@.subrange(i as int, i + t@.len()) =~= t@);
    true
}

/// `str::starts_with`.
pub fn starts_with(s: &str, t: &str) -> (r: bool)
    ensures
        r == has_prefix(s@, t@),
{
    let v: Vec<char> = to_chars(s);
    let w: Vec<char> = to_chars(t);
    chars_at(&v, &w, 0)
}

/// `str::ends_with`.
pub fn ends_with(s: &str, t: &str) -> (r: bool)
    ensures
        r == has_suffix(s@, t@),
{
    let v: Vec<char> = to_chars(s);
    let w: Vec<char> = to_chars(t);
    if v.len() < w.len() {
        return false;
    }
    chars_at(&v, &w, v.len() - w.len())
}

/// The first position at or after `from` where `t` stands in `v`.
pub fn find_from(v: &Vec<char>, t: &Vec<char>, from: usize) -> (r: Option<usize>)
    requires
        from <= v@.len(),
    ensures
        r is Some ==> from <= r->0 && occurs_at(v@, t@, r->0 as int) && forall|j: int|
            from <= j < r->0 ==> !occurs_at(v@, t@, j),
        r is None ==> forall|j: int| from <= j ==> !occurs_at(v@, t@, j),
{
    let mut i: usize = from;
    while i <= v.len()
        invariant
            from <= i <= v@.len() + 1,
            forall|j: int| from <= j < i ==> !occurs_at(v@, t@, j),
        decreases v@.len() + 1 - i,
    {
        if chars_at(v, t, i) {
            return Some(i);
        }
        if i == v.len() {
            return None;
        }
        i = i + 1;
    }
    None
}

/// `str::contains` of a string.
pub fn contains(s: &str, t: &str) -> (r: bool)
    ensures
        r == has_part(s@, t@),
{
    let v: Vec<char> = to_chars(s);
    let w: Vec<char> = to_chars(t);
    match find_from(&v, &w, 0) {
        Some(_) => true,
        None => {
            proof {
                assert forall|i: int| !occurs_at(s@, t@, i) by {
                    if i >= 0 {
                        assert(!occurs_at(v@, w@, i));
                    }
                }
            }
            false
        },
    }
}

/// What follows the prefix `t`.
pub open spec fn after_prefix(s: Seq<char>, t: Seq<char>) -> Option<Seq<char>> {
    if has_prefix(s, t) {
        Some(s.skip(t.len() as int))
    } else {
        None
    }
}

/// `str::strip_prefix`.
pub fn strip_prefix(s: &str, t: &str) -> (r: Option<String>)
    ensures
        r is Some == after_prefix(s@, t@) is Some,
        r is Some ==> r->0@ == after_prefix(s@, t@)->0,
{
    let v: Vec<char> = to_chars(s);
    let w: Vec<char> = to_chars(t);
    if chars_at(&v, &w, 0) {
        let rest: String = from_chars(&v, w.len(), v.len());
        proof {
            assert(v@.subrange(w@.len() as int, v@.len() as int) =~= s@.skip(t@.len() as int));
        }
        Some(rest)
    } else {
        None
    }
}

/// What stands before the suffix `t`.
pub open spec fn before_suffix(s: Seq<char>, t: Seq<char>) -> Option<Seq<char>> {
    if has_suffix(s, t) {
        Some(s.take(s.len() - t.len()))
    } else {
        None
    }
}

/// `str::strip_suffix`.
pub fn strip_suffix(s: &str, t: &str) -> (r: Option<String>)
    ensures
        r is Some == before_suffix(s@, t@) is Some,
        r is Some ==> r->0@ == before_suffix(s@, t@)->0,
{
    if !ends_with(s, t) {
        return None;
    }
    let v: Vec<char> = to_chars(s);
    let n: usize = v.len() - t.unicode_len();
    let rest: String = from_chars(&v, 0, n);
    proof {
        assert(v@.subrange(0, n as int) =~= s@.take(n as int));
    }
    Some(rest)
}

/// The pieces, with `sep` between any two.
pub open spec fn joined(parts: Seq<Seq<char>>, sep: Seq<char>) -> Seq<char>
    decreases parts.len(),
{
    if parts.len() == 0 {
        Seq::empty()
    } else if parts.len() == 1 {
        parts[0]
    } else {
        joined(parts.drop_last(), sep) + sep + parts.last()
    }
}

/// `[String]::join`.
pub fn join(parts: &Vec<String>, sep: &str) -> (r: String)
    ensures
        r@ == joined(views(parts@), sep@),
{
    let mut r: String = String::new();
    let mut i: usize = 0;
    let ghost pv = views(parts@);
    assert(pv.take(0) =~= Seq::empty());
    while i < parts.len()
        invariant
            i <= parts@.len(),
            pv == views(parts@),
            r@ == joined(pv.take(i as int), sep@),
        decreases parts@.len() - i,
    {
        let ghost longer = pv.take(i as int + 1);
        proof {
            assert(longer.drop_last() =~= pv.take(i as int));
            assert(longer.last() == parts@[i as int]@);
        }
        if i > 0 {
            r.append(sep);
        }
        r.append(parts[i].as_str());
        proof {
            if i == 0 {
                assert(r@ =~= longer[0]);
            }
        }
        i = i + 1;
    }
    assert(pv.take(parts@.len() as int) =~= pv);
    r
}

/// The text with each `c` replaced by `t`.
pub open spec fn replaced(s: Seq<char>, c: char, t: Seq<char>) -> Seq<char>
    decreases s.len(),
{
    if s.len() == 0 {
        Seq::empty()
    } else if s.last() == c {
        replaced(s.drop_last(), c, t) + t
    } else {
        replaced(s.drop_last(), c, t).push(s.last())
    }
}

/// `str::replace` of a character by a string.
pub fn replace_char(s: &str, c: char, t: &str) -> (r: String)
    ensures
        r@ == replaced(s@, c, t@),
{
    let v: Vec<char> = to_chars(s);
    let mut r: String = String::new();
    let mut i: usize = 0;
    assert(s@.take(0) =~= Seq::empty());
    while i < v.len()
        invariant
            v@ == s@,
            i <= v@.len(),
            r@ == replaced(s@.take(i as int), c, t@),
        decreases v@.len() - i,
    {
        proof {
            assert(s@.take(i as int + 1).drop_last() =~= s@.take(i as int));
            assert(s@.take(i as int + 1).last() == v@[i as int]);
        }
        if v[i] == c {
            r.append(t);
        } else {
            push_char(&mut r, v[i]);
        }
        i = i + 1;
    }
    assert(s@.take(v@.len() as int) =~= s@);
    r
}

// ASCII and hexadecimal.

/// An ASCII capital as its small letter, any other character as it is.
pub open spec fn lower_char(c: char) -> char {
    if 'A' <= c <= 'Z' {
        (c as u32 + 32) as char
    } else {
        c
    }
}

pub open spec fn ascii_lower(s: Seq<char>) -> Seq<char> {
    s.map_values(|c: char| lower_char(c))
}

/// `str::to_ascii_lowercase`.
pub fn to_ascii_lowercase(s: &str) -> (r: String)
    ensures
        r@ == ascii_lower(s@),
{
    let v: Vec<char> = to_chars(s);
    let mut r: String = String::new();
    let mut i: usize = 0;
    while i < v.len()
        invariant
            v@ == s@,
            i <= v@.len(),
            r@ == ascii_lower(s@.take(i as int)),
        decreases v@.len() - i,
    {
        let c: char = v[i];
        let l: char = if 'A' <= c && c <= 'Z' { ((c as u32 + 32) as u8) as char } else { c };
        push_char(&mut r, l);
        proof {
            assert(r@ =~= ascii_lower(s@.take(i as int + 1)));
        }
        i = i + 1;
    }
    assert(s@.take(v@.len() as int) =~= s@);
    r
}

/// The lower-case hexadecimal digit `d`.
pub open spec fn hex_digit(d: int) -> char {
    if d < 10 {
        (48 + d) as char
    } else {
        (87 + d) as char
    }
}

pub fn hex_digit_of(d: u8) -> (c: char)
    requires
        d < 16,
    ensures
        c == hex_digit(d as int),
{
    if d < 10 {
        (48 + d) as char
    } else {
        (87 + d) as char
    }
}

/// Each byte as two lower-case hexadecimal digits.
pub open spec fn hex_of(bytes: Seq<u8>) -> Seq<char>
    decreases bytes.len(),
{
    if bytes.len() == 0 {
        Seq::empty()
    } else {
        hex_of(bytes.drop_last()) + seq![
            hex_digit(bytes.last() as int / 16),
            hex_digit(bytes.last() as int % 16),
        ]
    }
}

/// Lower-case hexadecimal notation of bytes.
pub fn hex_lower(bytes: &[u8]) -> (r: String)
    ensures
        r@ == hex_of(bytes@),
{
    let mut r: String = String::new();
    let mut i: usize = 0;
    assert(bytes@.take(0) =~= Seq::empty());
    while i < bytes.len()
        invariant
            i <= bytes@.len(),
            r@ == hex_of(bytes@.take(i as int)),
        decreases bytes@.len() - i,
    {
        let b: u8 = bytes[i];
        let ghost r0 = r@;
        push_char(&mut r, hex_digit_of(b / 16));
        push_char(&mut r, hex_digit_of(b % 16));
        proof {
            assert(bytes@.take(i as int + 1).drop_last() =~= bytes@.take(i as int));
            assert(r@ =~= r0 + seq![hex_digit(b as int / 16), hex_digit(b as int % 16)]);
        }
        i = i + 1;
    }
    assert(bytes@.take(bytes@.len() as int) =~= bytes@);
    r
}

/// The value of a hexadecimal digit of either case.
pub open spec fn hex_value(c: char) -> Option<nat> {
    if '0' <= c <= '9' {
        Some((c as nat - 48) as nat)
    } else if 'a' <= c <= 'f' {
        Some((c as nat - 87) as nat)
    } else if 'A' <= c <= 'F' {
        Some((c as nat - 55) as nat)
    } else {
        None
    }
}

/// The number that a row of hexadecimal digits writes; none where there is
/// another character, or where it exceeds the limit.
pub open spec fn hex_digits_value(s: Seq<char>, max: nat) -> Option<nat>
    decreases s.len(),
{
    if s.len() == 0 {
        Some(0)
    } else {
        match (hex_digits_value(s.drop_last(), max), hex_value(s.last())) {
            (Some(n), Some(d)) => if n * 16 + d <= max {
                Some((n * 16 + d) as nat)
            } else {
                None
            },
            _ => None,
        }
    }
}

/// What an unsigned number reads from a string in hexadecimal: an optional
/// `+`, then at least one digit and nothing else.
pub open spec fn hex_number(s: Seq<char>, max: nat) -> Option<nat> {
    let digits = if s.len() > 0 && s[0] == '+' {
        s.skip(1)
    } else {
        s
    };
    if digits.len() == 0 {
        None
    } else {
        hex_digits_value(digits, max)
    }
}

/// The same, of a byte.
pub open spec fn hex_byte(s: Seq<char>) -> Option<nat> {
    hex_number(s, 255)
}

proof fn lemma_hex_fails(s: Seq<char>, max: nat, n: int)
    requires
        0 <= n <= s.len(),
        hex_digits_value(s.take(n), max) is None,
    ensures
        hex_digits_value(s, max) is None,
    decreases s.len(),
{
    if n == s.len() {
        assert(s.take(n) =~= s);
    } else {
        assert(s.drop_last().take(n) =~= s.take(n));
        lemma_hex_fails(s.drop_last(), max, n);
    }
}

/// `from_str_radix` with radix 16, of a type whose largest value is `max`.
pub fn parse_hex(s: &str, max: u64) -> (r: Option<u64>)
    ensures
        match r {
            Some(n) => hex_number(s@, max as nat) == Some(n as nat) && n <= max,
            None => hex_number(s@, max as nat) is None,
        },
{
    let v: Vec<char> = to_chars(s);
    let start: usize = if v.len() > 0 && v[0] == '+' { 1 } else { 0 };
    let ghost digits = s@.skip(start as int);
    assert(s@.skip(0) =~= s@);
    if start == v.len() {
        return None;
    }
    let mut n: u64 = 0;
    let mut i: usize = start;
    assert(digits.take(0) =~= Seq::empty());
    while i < v.len()
        invariant
            v@ == s@,
            start <= i <= v@.len(),
            digits == s@.skip(start as int),
            n <= max,
            hex_digits_value(digits.take(i - start), max as nat) == Some(n as nat),
            hex_number(s@, max as nat) == hex_digits_value(digits, max as nat),
        decreases v@.len() - i,
    {
        let c: char = v[i];
        let ghost longer = digits.take(i - start + 1);
        proof {
            assert(longer.drop_last() =~= digits.take(i - start));
            assert(longer.last() == c);
        }
        let d: u64 = if '0' <= c && c <= '9' {
            c as u64 - 48
        } else if 'a' <= c && c <= 'f' {
            c as u64 - 87
        } else if 'A' <= c && c <= 'F' {
            c as u64 - 55
        } else {
            proof {
                lemma_hex_fails(digits, max as nat, i - start + 1);
            }
            return None;
        };
        if d > max || n > (max - d) / 16 {
            proof {
                lemma_hex_fails(digits, max as nat, i - start + 1);
            }
            return None;
        }
        n = n * 16 + d;
        i = i + 1;
    }
    assert(digits.take(v@.len() - start) =~= digits);
    Some(n)
}

/// `u8::from_str_radix` with radix 16.
pub fn parse_hex_byte(s: &str) -> (r: Option<u8>)
    ensures
        match r {
            Some(b) => hex_byte(s@) == Some(b as nat),
            None => hex_byte(s@) is None,
        },
{
    match parse_hex(s, 255) {
        Some(n) => Some(n as u8),
        None => None,
    }
}

/// A text without a suffix, however often it stands there.
pub open spec fn without_suffix(s: Seq<char>, suffix: Seq<char>) -> Seq<char>
    decreases s.len(),
{
    if suffix.len() > 0 && has_suffix(s, suffix) {
        without_suffix(s.take(s.len() - suffix.len()), suffix)
    } else {
        s
    }
}

/// A text without a suffix, however often it stands there.
pub fn strip_all(s: &str, suffix: &str) -> (r: String)
    requires
        suffix@.len() > 0,
    ensures
        r@ == without_suffix(s@, suffix@),
{
    let mut cur: String = owned(s);
    loop
        invariant
            suffix@.len() > 0,
            without_suffix(cur@, suffix@) == without_suffix(s@, suffix@),
        decreases cur@.len(),
    {
        match strip_suffix(cur.as_str(), suffix) {
            Some(shorter) => {
                cur = shorter;
            },
            None => {
                return cur;
            },
        }
    }
}

/// How many bytes a character takes in UTF-8.
pub open spec fn char_width(c: char) -> nat {
    if (c as u32) < 0x80 {
        1
    } else if (c as u32) < 0x800 {
        2
    } else if (c as u32) < 0x10000 {
        3
    } else {
        4
    }
}

/// The longest end of a text that takes at most so many bytes in UTF-8.
pub open spec fn utf8_tail(s: Seq<char>, max: int) -> Seq<char>
    decreases s.len(),
{
    if s.len() == 0 || char_width(s.last()) > max {
        Seq::empty()
    } else {
        utf8_tail(s.drop_last(), max - char_width(s.last())).push(s.last())
    }
}

/// The end of a text, of at most so many bytes.
pub fn tail_of_bytes(s: &str, max: u64) -> (r: String)
    ensures
        r@ == utf8_tail(s@, max as int),
{
    let v: Vec<char> = to_chars(s);
    let n: usize = v.len();
    let mut from: usize = n;
    let mut left: u64 = max;
    assert(s@.take(n as int) =~= s@);
    assert(s@.skip(n as int) =~= Seq::empty());
    assert(utf8_tail(s@.take(n as int), left as int) + s@.skip(n as int) =~= utf8_tail(
        s@,
        max as int,
    ));
    while from > 0
        invariant
            v@ == s@,
            n == v@.len(),
            from <= n,
            utf8_tail(s@.take(from as int), left as int) + s@.skip(from as int) == utf8_tail(
                s@,
                max as int,
            ),
        decreases from,
    {
        let c: char = v[from - 1];
        let code: u32 = c as u32;
        let w: u64 = if code < 0x80 {
            1
        } else if code < 0x800 {
            2
        } else if code < 0x10000 {
            3
        } else {
            4
        };
        let ghost cur = s@.take(from as int);
        proof {
            assert(cur.last() == c);
            assert(cur.drop_last() =~= s@.take(from - 1));
        }
        if w > left {
            assert(utf8_tail(cur, left as int) =~= Seq::empty());
            assert(Seq::<char>::empty() + s@.skip(from as int) =~= s@.skip(from as int));
            assert(s@.subrange(from as int, n as int) =~= s@.skip(from as int));
            return from_chars(&v, from, n);
        }
        proof {
            let t = utf8_tail(cur.drop_last(), left - w);
            assert(t.push(c) + s@.skip(from as int) =~= t + s@.skip(from - 1));
        }
        left = left - w;
        from = from - 1;
    }
    assert(utf8_tail(s@.take(0), left as int) =~= Seq::empty());
    assert(Seq::<char>::empty() + s@.skip(0) =~= s@.subrange(0, n as int));
    from_chars(&v, 0, n)
}

/// The lower-case form of a text, by the rules of Unicode.
pub uninterp spec fn lowercased(s: Seq<char>) -> Seq<char>;

/// `str::to_lowercase`: the lower-case form, which of an ASCII text is the one
/// with its letters A to Z lowered.
#[verifier::external_body]
pub(crate) fn to_lowercase(s: &str) -> (r: String)
    ensures
        r@ == lowercased(s@),
        (forall|i: int| 0 <= i < s@.len() ==> (#[trigger] s@[i] as u32) < 128) ==> r@
            == ascii_lower(s@),
{
    s.to_lowercase()
}

/// Add a line to a list.
pub fn push_line(out: &mut Vec<String>, line: String)
    ensures
        views(final(out)@) == views(old(out)@).push(line@),
{
    let ghost before = views(out@);
    out.push(line);
    assert(views(out@) =~= before.push(line@));
}

// What splitting, joining and trimming come to.

proof fn lemma_split_one(piece: Seq<char>, c: char)
    requires
        !piece.contains(c),
    ensures
        split_on(piece, c) == seq![piece],
    decreases piece.len(),
{
    if piece.len() == 0 {
        assert(piece =~= Seq::empty());
        assert(split_on(piece, c) =~= seq![piece]);
    } else {
        let init = piece.drop_last();
        assert(piece.contains(piece.last()));
        assert forall|i: int| 0 <= i < init.len() implies init[i] != c by {
            assert(piece.contains(piece[i]));
        }
        lemma_split_one(init, c);
        assert(init.push(piece.last()) =~= piece);
        assert(seq![init].drop_last().push(seq![init].last().push(piece.last())) =~= seq![piece]);
    }
}

/// A text that does not hold the separator is one piece. What stands before the
/// first separator is the first piece, and what stands behind it is split on.
pub proof fn a_piece_splits_off(piece: Seq<char>, rest: Seq<char>, c: char)
    requires
        !piece.contains(c),
    ensures
        split_on(piece, c) == seq![piece],
        split_on(piece.push(c) + rest, c) == seq![piece] + split_on(rest, c),
    decreases rest.len(),
{
    lemma_split_one(piece, c);
    let head = piece.push(c);
    let all = head + rest;
    if rest.len() == 0 {
        assert(all =~= head);
        assert(head.drop_last() =~= piece);
        assert(split_on(all, c) =~= seq![piece] + split_on(rest, c));
    } else {
        let init = rest.drop_last();
        a_piece_splits_off(piece, init, c);
        split_then_join(init, c);
        assert(all.drop_last() =~= head + init);
        assert(all.last() == rest.last());
        let before = split_on(init, c);
        assert((seq![piece] + before).drop_last() =~= seq![piece] + before.drop_last());
        assert((seq![piece] + before).last() == before.last());
        assert(split_on(all, c) =~= seq![piece] + split_on(rest, c));
    }
}

/// A text behind a prefix is what the prefix leaves; a text without it has
/// nothing behind it.
pub proof fn what_is_behind_a_prefix(s: Seq<char>, prefix: Seq<char>, rest: Seq<char>)
    ensures
        after_prefix(prefix + rest, prefix) == Some(rest),
        after_prefix(s, prefix) == Some(rest) ==> s == prefix + rest,
        after_prefix(s, prefix) is Some <==> has_prefix(s, prefix),
        has_prefix(prefix + rest, prefix),
{
    assert((prefix + rest).subrange(0, prefix.len() as int) =~= prefix);
    assert((prefix + rest).skip(prefix.len() as int) =~= rest);
    if after_prefix(s, prefix) == Some(rest) {
        assert forall|i: int| 0 <= i < prefix.len() implies s[i] == prefix[i] by {
            assert(s.subrange(0, prefix.len() as int)[i] == s[i]);
        }
        assert(s =~= prefix + rest);
    }
}

/// White space at either end does not matter to a trimmed text.
pub proof fn blanks_are_trimmed(s: Seq<char>, blank: char)
    requires
        white(blank),
    ensures
        trimmed(seq![blank] + s) == trimmed(s),
        s.len() > 0 && !white(s[0]) && !white(s.last()) ==> trimmed(s) == s && trimmed(s.push(blank))
            == s,
{
    let t = seq![blank] + s;
    assert(t.skip(1) =~= s);
    let u = s.push(blank);
    if s.len() > 0 && !white(s[0]) {
        assert(u[0] == s[0]);
        assert(u.drop_last() =~= s);
    }
}

/// What stands before the first white space is the first word, and what stands
/// behind it is taken apart in turn; white space before a word does not count.
pub proof fn a_word_splits_off(word: Seq<char>, blank: char, rest: Seq<char>)
    requires
        word.len() > 0,
        forall|i: int| 0 <= i < word.len() ==> !white(#[trigger] word[i]),
        white(blank),
    ensures
        words_of(word) == seq![word],
        words_of(word.push(blank) + rest) == seq![word] + words_of(rest),
        words_of(seq![blank] + rest) == words_of(rest),
{
    lemma_one_word(word);
    lemma_words_on(word, blank, rest);
    lemma_words_after(blank, rest);
}

proof fn lemma_one_word(word: Seq<char>)
    requires
        forall|i: int| 0 <= i < word.len() ==> !white(#[trigger] word[i]),
    ensures
        words_and_rest(word) == (Seq::<Seq<char>>::empty(), word),
    decreases word.len(),
{
    if word.len() > 0 {
        let init = word.drop_last();
        assert forall|i: int| 0 <= i < init.len() implies !white(#[trigger] init[i]) by {
            assert(init[i] == word[i]);
        }
        lemma_one_word(init);
        assert(!white(word[word.len() - 1]));
        assert(init.push(word.last()) =~= word);
    } else {
        assert(word =~= Seq::empty());
    }
}

proof fn lemma_words_on(word: Seq<char>, blank: char, rest: Seq<char>)
    requires
        word.len() > 0,
        forall|i: int| 0 <= i < word.len() ==> !white(#[trigger] word[i]),
        white(blank),
    ensures
        ({
            let (done, cur) = words_and_rest(rest);
            words_and_rest(word.push(blank) + rest) == (seq![word] + done, cur)
        }),
    decreases rest.len(),
{
    let all = word.push(blank) + rest;
    let (done, cur) = words_and_rest(rest);
    if rest.len() == 0 {
        assert(all =~= word.push(blank));
        assert(all.drop_last() =~= word);
        lemma_one_word(word);
        assert(Seq::<Seq<char>>::empty().push(word) =~= seq![word] + done);
    } else {
        let init = rest.drop_last();
        lemma_words_on(word, blank, init);
        assert(all.drop_last() =~= word.push(blank) + init);
        assert(all.last() == rest.last());
        let (d0, c0) = words_and_rest(init);
        assert((seq![word] + d0).push(c0) =~= seq![word] + d0.push(c0));
    }
}

proof fn lemma_words_after(blank: char, rest: Seq<char>)
    requires
        white(blank),
    ensures
        words_and_rest(seq![blank] + rest) == words_and_rest(rest),
    decreases rest.len(),
{
    let all = seq![blank] + rest;
    if rest.len() == 0 {
        assert(all =~= seq![blank]);
        assert(all.drop_last() =~= Seq::empty());
        assert(rest =~= Seq::empty());
        reveal_with_fuel(words_and_rest, 2);
    } else {
        lemma_words_after(blank, rest.drop_last());
        assert(all.drop_last() =~= seq![blank] + rest.drop_last());
        assert(all.last() == rest.last());
    }
}

/// A line ends at its line feed, and at nothing else; what follows are the other
/// lines. A carriage return before the feed belongs to the end.
pub proof fn a_line_splits_off(line: Seq<char>, rest: Seq<char>)
    requires
        !line.contains('\n'),
    ensures
        lines_of(Seq::empty()) == Seq::<Seq<char>>::empty(),
        line.len() > 0 ==> lines_of(line) == seq![line],
        line.len() > 0 && line.last() != '\r' || line.len() == 0 ==> lines_of(
            line.push('\n') + rest,
        ) == seq![line] + lines_of(rest) && lines_of(line.push('\r').push('\n') + rest) == seq![line]
            + lines_of(rest),
{
    let none = Seq::<char>::empty();
    a_piece_splits_off(line, rest, '\n');
    a_piece_splits_off(none, rest, '\n');
    assert(seq![none].drop_last().map_values(|l: Seq<char>| without_cr(l)) =~= Seq::empty());
    assert(seq![line].drop_last().map_values(|l: Seq<char>| without_cr(l)) =~= Seq::empty());
    assert(Seq::<Seq<char>>::empty().push(line) =~= seq![line]);
    let cr = line.push('\r');
    assert(!cr.contains('\n')) by {
        assert forall|i: int| 0 <= i < cr.len() implies cr[i] != '\n' by {
            if i < line.len() {
                assert(line.contains(line[i]));
            }
        }
    }
    a_piece_splits_off(cr, rest, '\n');
    assert(cr.drop_last() =~= line);
    lemma_lines_on(line, line, rest);
    lemma_lines_on(cr, line, rest);
}

proof fn lemma_lines_on(raw: Seq<char>, line: Seq<char>, rest: Seq<char>)
    requires
        split_on(raw.push('\n') + rest, '\n') == seq![raw] + split_on(rest, '\n'),
    ensures
        without_cr(raw) == line ==> lines_of(raw.push('\n') + rest) == seq![line] + lines_of(rest),
{
    split_then_join(rest, '\n');
    let r = split_on(rest, '\n');
    let all = seq![raw] + r;
    let f = |l: Seq<char>| without_cr(l);
    assert(all.drop_last() =~= seq![raw] + r.drop_last());
    assert(all.last() == r.last());
    assert(all.drop_last().map_values(f) =~= seq![without_cr(raw)] + r.drop_last().map_values(f));
    if without_cr(raw) == line {
        if r.last().len() == 0 {
            assert(lines_of(raw.push('\n') + rest) =~= seq![line] + lines_of(rest));
        } else {
            assert(lines_of(raw.push('\n') + rest) =~= seq![line] + lines_of(rest));
        }
    }
}

/// The digits of bytes stand two by two, and each two read back as their byte.
pub proof fn bytes_read_back(bytes: Seq<u8>, i: int)
    requires
        0 <= i < bytes.len(),
    ensures
        hex_of(bytes).len() == 2 * bytes.len(),
        hex_byte(hex_of(bytes).subrange(2 * i, 2 * i + 2)) == Some(bytes[i] as nat),
        hex_of(bytes)[2 * i] == ascii_lower(hex_of(bytes))[2 * i],
        hex_of(bytes)[2 * i + 1] == ascii_lower(hex_of(bytes))[2 * i + 1],
    decreases bytes.len(),
{
    let init = bytes.drop_last();
    let all = hex_of(bytes);
    let b = bytes.last();
    reveal_with_fuel(hex_of, 2);
    if init.len() > 0 {
        bytes_read_back(
            init,
            if i < init.len() {
                i
            } else {
                0
            },
        );
    }
    let two = all.subrange(2 * i, 2 * i + 2);
    if i < init.len() {
        assert(two =~= hex_of(init).subrange(2 * i, 2 * i + 2));
        assert(all[2 * i] == hex_of(init)[2 * i]);
        assert(all[2 * i + 1] == hex_of(init)[2 * i + 1]);
    } else {
        assert(two =~= seq![hex_digit(b as int / 16), hex_digit(b as int % 16)]);
        reveal_with_fuel(hex_digits_value, 3);
        assert(two.drop_last().drop_last() =~= Seq::<char>::empty());
    }
}

/// A text is replaced character by character, from either side.
pub proof fn what_is_replaced(a: Seq<char>, b: Seq<char>, c: char, other: char, t: Seq<char>)
    requires
        other != c,
    ensures
        replaced(a + b, c, t) == replaced(a, c, t) + replaced(b, c, t),
        replaced(seq![c], c, t) == t,
        replaced(seq![other], c, t) == seq![other],
        replaced(Seq::empty(), c, t) == Seq::<char>::empty(),
    decreases b.len(),
{
    reveal_with_fuel(replaced, 2);
    assert(seq![c].drop_last() =~= Seq::<char>::empty());
    assert(seq![other].drop_last() =~= Seq::<char>::empty());
    assert(replaced(seq![c], c, t) =~= t);
    assert(replaced(seq![other], c, t) =~= seq![other]);
    if b.len() == 0 {
        assert(a + b =~= a);
        assert(replaced(a, c, t) + replaced(b, c, t) =~= replaced(a, c, t));
    } else {
        what_is_replaced(a, b.drop_last(), c, other, t);
        assert((a + b).drop_last() =~= a + b.drop_last());
        assert((a + b).last() == b.last());
        assert(replaced(a + b, c, t) =~= replaced(a, c, t) + replaced(b, c, t));
    }
}

/// Capitals become the small letters that stand 32 behind them; nothing else
/// changes, and what is lowered stays.
pub proof fn capitals_are_lowered(s: Seq<char>, i: int)
    requires
        0 <= i < s.len(),
    ensures
        ascii_lower(s).len() == s.len(),
        'A' <= s[i] <= 'Z' ==> ascii_lower(s)[i] as u32 == s[i] as u32 + 32 && 'a' <= ascii_lower(
            s,
        )[i] <= 'z',
        !('A' <= s[i] <= 'Z') ==> ascii_lower(s)[i] == s[i],
        ascii_lower(ascii_lower(s)) == ascii_lower(s),
{
    assert(ascii_lower(ascii_lower(s)) =~= ascii_lower(s));
}

/// What is left ends in the suffix no more, and only suffixes are taken away.
pub proof fn every_suffix_is_taken_off(s: Seq<char>, suffix: Seq<char>)
    requires
        suffix.len() > 0,
    ensures
        !has_suffix(without_suffix(s, suffix), suffix),
        without_suffix(s + suffix, suffix) == without_suffix(s, suffix),
        !has_suffix(s, suffix) ==> without_suffix(s, suffix) == s,
    decreases s.len(),
{
    let t = s + suffix;
    assert(t.subrange(t.len() - suffix.len(), t.len() as int) =~= suffix);
    assert(t.take(t.len() - suffix.len()) =~= s);
    assert(has_suffix(t, suffix));
    if has_suffix(s, suffix) {
        every_suffix_is_taken_off(s.take(s.len() - suffix.len()), suffix);
    }
}

/// Between any two pieces stands one separator; what is joined in two parts is
/// joined as a whole.
pub proof fn pieces_are_joined(a: Seq<Seq<char>>, b: Seq<Seq<char>>, piece: Seq<char>, sep: Seq<char>)
    requires
        a.len() > 0,
        b.len() > 0,
    ensures
        joined(seq![piece], sep) == piece,
        joined(a + b, sep) == joined(a, sep) + sep + joined(b, sep),
    decreases b.len(),
{
    if b.len() == 1 {
        assert((a + b).drop_last() =~= a);
        assert((a + b).last() == b[0]);
    } else {
        pieces_are_joined(a, b.drop_last(), piece, sep);
        assert((a + b).drop_last() =~= a + b.drop_last());
        assert((a + b).last() == b.last());
        assert(joined(a + b, sep) =~= joined(a, sep) + sep + joined(b, sep));
    }
}

/// Pieces that do not hold the separator come apart as they were joined.
pub proof fn join_then_split(parts: Seq<Seq<char>>, c: char)
    requires
        parts.len() > 0,
        forall|k: int| 0 <= k < parts.len() ==> !(#[trigger] parts[k]).contains(c),
    ensures
        split_on(joined(parts, seq![c]), c) == parts,
    decreases parts.len(),
{
    let first = parts[0];
    if parts.len() == 1 {
        a_piece_splits_off(first, Seq::empty(), c);
        assert(seq![first] =~= parts);
    } else {
        let rest = parts.skip(1);
        assert forall|k: int| 0 <= k < rest.len() implies !(#[trigger] rest[k]).contains(c) by {
            assert(rest[k] == parts[k + 1]);
        }
        join_then_split(rest, c);
        assert(seq![first] + rest =~= parts);
        pieces_are_joined(seq![first], rest, first, seq![c]);
        a_piece_splits_off(first, joined(rest, seq![c]), c);
        assert(joined(parts, seq![c]) =~= first.push(c) + joined(rest, seq![c]));
    }
}

} // verus!

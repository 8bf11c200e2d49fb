//! Bytes: fixed-width integers on the wire, and UTF-8.

use vstd::prelude::*;
use vstd::utf8::{decode_utf8, valid_utf8};

verus! {

/// Big-endian notation of a 16-bit number.
pub open spec fn be16(n: u16) -> Seq<u8> {
    seq![(n / 256) as u8, (n % 256) as u8]
}

/// Big-endian notation of a 32-bit number.
pub open spec fn be32(n: u32) -> Seq<u8> {
    seq![
        (n / 0x100_0000) as u8,
        (n / 0x1_0000 % 256) as u8,
        (n / 256 % 256) as u8,
        (n % 256) as u8,
    ]
}

/// The 16-bit number that two bytes write, high byte first.
pub open spec fn from_be16(hi: u8, lo: u8) -> u16 {
    (hi * 256 + lo) as u16
}

pub fn read_be16(hi: u8, lo: u8) -> (n: u16)
    ensures
        n == from_be16(hi, lo),
{
    hi as u16 * 256 + lo as u16
}

pub fn push_be16(out: &mut Vec<u8>, n: u16)
    ensures
        final(out)@ == old(out)@ + be16(n),
{
    out.push((n / 256) as u8);
    out.push((n % 256) as u8);
    assert(out@ =~= old(out)@ + be16(n));
}

pub fn push_be32(out: &mut Vec<u8>, n: u32)
    ensures
        final(out)@ == old(out)@ + be32(n),
{
    out.push((n / 0x100_0000) as u8);
    out.push((n / 0x1_0000 % 256) as u8);
    out.push((n / 256 % 256) as u8);
    out.push((n % 256) as u8);
    assert(out@ =~= old(out)@ + be32(n));
}

/// Little-endian notation of a 32-bit number.
pub open spec fn le32(n: u32) -> Seq<u8> {
    seq![
        (n % 256) as u8,
        (n / 256 % 256) as u8,
        (n / 0x1_0000 % 256) as u8,
        (n / 0x100_0000) as u8,
    ]
}

/// The 32-bit number that four bytes write, low byte first.
pub open spec fn from_le32(b: Seq<u8>, at: int) -> u32 {
    (b[at] + b[at + 1] * 0x100 + b[at + 2] * 0x1_0000 + b[at + 3] * 0x100_0000) as u32
}

pub fn read_le32(b: &[u8], at: usize) -> (n: u32)
    requires
        at + 4 <= b@.len(),
    ensures
        n == from_le32(b@, at as int),
{
    b[at] as u32 + b[at + 1] as u32 * 0x100 + b[at + 2] as u32 * 0x1_0000 + b[at + 3] as u32
        * 0x100_0000
}

pub fn push_le32(out: &mut Vec<u8>, n: u32)
    ensures
        final(out)@ == old(out)@ + le32(n),
{
    out.push((n % 256) as u8);
    out.push((n / 256 % 256) as u8);
    out.push((n / 0x1_0000 % 256) as u8);
    out.push((n / 0x100_0000) as u8);
    assert(out@ =~= old(out)@ + le32(n));
}

/// The product of two 32-bit numbers leaves room in 64 bits.
pub proof fn u32_product_fits(a: u32, b: u32)
    ensures
        0 <= a * b <= 0xffff_ffff * 0xffff_ffff,
        a * b + 0x1_0000_0000 <= u64::MAX,
{
    assert(0 <= a * b <= 0xffff_ffff * 0xffff_ffff) by (nonlinear_arith)
        requires
            a <= 0xffff_ffff,
            b <= 0xffff_ffff,
    ;
}

/// Four bytes in little-endian order read back as the number they write,
/// wherever they stand.
pub proof fn le32_reads_back(n: u32, b: Seq<u8>, at: int)
    requires
        0 <= at,
        at + 4 <= b.len(),
        b.subrange(at, at + 4) == le32(n),
    ensures
        from_le32(b, at) == n,
{
    let x = b.subrange(at, at + 4);
    assert(x[0] == le32(n)[0] && x[1] == le32(n)[1] && x[2] == le32(n)[2] && x[3] == le32(n)[3]);
    assert(n == n % 256 + n / 256 % 256 * 0x100 + n / 0x1_0000 % 256 * 0x1_0000 + n / 0x100_0000
        * 0x100_0000);
}

/// Append a slice.
pub fn push_bytes(out: &mut Vec<u8>, bytes: &[u8])
    ensures
        final(out)@ == old(out)@ + bytes@,
{
    let mut i: usize = 0;
    while i < bytes.len()
        invariant
            i <= bytes@.len(),
            out@ == old(out)@ + bytes@.take(i as int),
        decreases bytes@.len() - i,
    {
        out.push(bytes[i]);
        proof {
            assert(out@ =~= old(out)@ + bytes@.take(i as int + 1));
        }
        i = i + 1;
    }
    assert(bytes@.take(bytes@.len() as int) =~= bytes@);
    assert(out@ =~= old(out)@ + bytes@);
}

/// The bytes `v[from..to]`.
pub fn slice_of(v: &[u8], from: usize, to: usize) -> (r: Vec<u8>)
    requires
        from <= to <= v@.len(),
    ensures
        r@ == v@.subrange(from as int, to as int),
{
    let mut r: Vec<u8> = Vec::new();
    let mut i: usize = from;
    while i < to
        invariant
            from <= i <= to <= v@.len(),
            r@ == v@.subrange(from as int, i as int),
        decreases to - i,
    {
        r.push(v[i]);
        proof {
            assert(r@ =~= v@.subrange(from as int, i as int + 1));
        }
        i = i + 1;
    }
    r
}

/// A number written in two bytes reads back.
pub proof fn be16_reads_back(n: u16)
    ensures
        be16(n).len() == 2,
        from_be16(be16(n)[0], be16(n)[1]) == n,
{
}

/// The text that `String::from_utf8_lossy` makes of bytes that are not UTF-8.
pub uninterp spec fn utf8_replaced(bytes: Seq<u8>) -> Seq<char>;

/// Bytes as text: valid UTF-8 decoded, anything else with replacement
/// characters for what is invalid.
pub open spec fn lossy_text(bytes: Seq<u8>) -> Seq<char> {
    if valid_utf8(bytes) {
        decode_utf8(bytes)
    } else {
        utf8_replaced(bytes)
    }
}

/// `String::from_utf8_lossy`: valid UTF-8 is decoded as it stands; of other
/// bytes the text is a function of the bytes alone. Where the replacement
/// characters then stand is left to std's documentation.
#[verifier::external_body]
pub(crate) fn from_utf8_lossy(bytes: &[u8]) -> (s: String)
    ensures
        s@ == (if valid_utf8(bytes@) { decode_utf8(bytes@) } else { utf8_replaced(bytes@) }),
{
    String::from_utf8_lossy(bytes).into_owned()
}

/// `std::str::from_utf8`: the text that the bytes encode, and an error exactly
/// where they are not UTF-8.
#[verifier::external_body]
pub(crate) fn from_utf8(bytes: &[u8]) -> (r: Option<String>)
    ensures
        match r {
            Some(s) => valid_utf8(bytes@) && s@ == decode_utf8(bytes@),
            None => !valid_utf8(bytes@),
        },
{
    std::str::from_utf8(bytes).ok().map(String::from)
}

/// Where the pattern first occurs at or after a position.
pub open spec fn first_match(b: Seq<u8>, pat: Seq<u8>, from: int) -> Option<int>
    decreases b.len() - from,
{
    if from < 0 || from + pat.len() > b.len() {
        None
    } else if b.subrange(from, from + pat.len()) == pat {
        Some(from)
    } else if from >= b.len() {
        None
    } else {
        first_match(b, pat, from + 1)
    }
}

/// A match lies within the bytes.
pub proof fn lemma_match_within(b: Seq<u8>, pat: Seq<u8>, from: int)
    ensures
        match first_match(b, pat, from) {
            Some(i) => from <= i && 0 <= i && i + pat.len() <= b.len(),
            None => true,
        },
    decreases b.len() - from,
{
    if from < 0 || from + pat.len() > b.len() {
    } else if b.subrange(from, from + pat.len()) == pat {
    } else if from >= b.len() {
    } else {
        lemma_match_within(b, pat, from + 1);
    }
}

fn matches_at(b: &[u8], pat: &Vec<u8>, at: usize) -> (r: bool)
    requires
        at + pat@.len() <= b@.len(),
    ensures
        r == (b@.subrange(at as int, at + pat@.len()) == pat@),
{
    let n: usize = b.len();
    let mut i: usize = 0;
    let ghost part = b@.subrange(at as int, at + pat@.len());
    while i < pat.len()
        invariant
            i <= pat@.len(),
            n == b@.len(),
            at + pat@.len() <= n,
            part == b@.subrange(at as int, at + pat@.len()),
            forall|j: int| 0 <= j < i ==> part[j] == pat@[j],
        decreases pat@.len() - i,
    {
        if b[at + i] != pat[i] {
            assert(part[i as int] != pat@[i as int]);
            return false;
        }
        i = i + 1;
    }
    assert(part =~= pat@);
    true
}

/// Find a pattern in bytes.
pub fn find_bytes(b: &[u8], pat: &Vec<u8>, from: usize) -> (r: Option<usize>)
    requires
        from <= b@.len(),
    ensures
        match r {
            Some(i) => first_match(b@, pat@, from as int) == Some(i as int) && from <= i && i + pat@.len()
                <= b@.len(),
            None => first_match(b@, pat@, from as int) is None,
        },
{
    let n: usize = b.len();
    let mut i: usize = from;
    while i < n
        invariant
            from <= i <= n,
            n == b@.len(),
            first_match(b@, pat@, i as int) == first_match(b@, pat@, from as int),
        decreases n - i,
    {
        if pat.len() > n - i {
            return None;
        }
        if matches_at(b, pat, i) {
            return Some(i);
        }
        i = i + 1;
    }
    if pat.len() == 0 {
        assert(b@.subrange(i as int, i as int) =~= pat@);
        return Some(i);
    }
    None
}

/// What is found is the first place where the pattern stands; and where nothing
/// is found it stands nowhere.
pub proof fn the_first_match_is_found(b: Seq<u8>, pat: Seq<u8>, from: int, k: int)
    requires
        0 <= from <= k,
        pat.len() > 0,
    ensures
        match first_match(b, pat, from) {
            Some(i) => from <= i && i + pat.len() <= b.len() && b.subrange(i, i + pat.len()) == pat
                && (k < i ==> b.subrange(k, k + pat.len()) != pat),
            None => k + pat.len() <= b.len() ==> b.subrange(k, k + pat.len()) != pat,
        },
    decreases b.len() - from,
{
    if from + pat.len() > b.len() {
    } else if b.subrange(from, from + pat.len()) == pat {
    } else if k > from {
        the_first_match_is_found(b, pat, from + 1, k);
    } else {
        the_first_match_is_found(b, pat, from + 1, k + 1);
    }
}

/// Numbers on the wire: two and four bytes with the highest first, four with the
/// lowest first.
pub proof fn how_numbers_are_written(n: u16, m: u32)
    ensures
        be16(n).len() == 2 && be16(n)[0] * 256 + be16(n)[1] == n,
        be32(m).len() == 4 && be32(m)[0] * 0x100_0000 + be32(m)[1] * 0x1_0000 + be32(m)[2] * 0x100
            + be32(m)[3] == m,
        le32(m).len() == 4 && le32(m)[3] * 0x100_0000 + le32(m)[2] * 0x1_0000 + le32(m)[1] * 0x100
            + le32(m)[0] == m,
{
}

} // verus!

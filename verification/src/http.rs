//! Just enough HTTP/1.1 to read the answer to one request on a connection that
//! closes afterwards: a status, the headers, and a body that is either plain
//! or in chunks.

use crate::bytes::{find_bytes, first_match, from_utf8, from_utf8_lossy, lossy_text, push_bytes, slice_of};
use crate::text::{
    contains, decimal_str, hex_number, lines, owned, parse_hex, parse_u16, same, split_char, starts_with,
    to_ascii_lowercase, trim, words,
};
use vstd::prelude::*;
use vstd::utf8::{decode_utf8, valid_utf8};

verus! {

pub open spec fn crlf() -> Seq<u8> {
    seq![13u8, 10u8]
}

/// What ends the headers.
pub open spec fn header_end() -> Seq<u8> {
    seq![13u8, 10u8, 13u8, 10u8]
}

/// What is wrong with a body in chunks.
#[derive(Debug, Clone, Copy, PartialEq, Eq, Structural)]
pub enum ChunkError {
    /// No line with a size.
    MissingSize,
    /// The line with the size is not text.
    BadLine,
    /// The size is not a hexadecimal number.
    BadSize,
    /// There are fewer bytes than the size says.
    Truncated,
}

impl ChunkError {
    pub fn message(&self) -> (s: &'static str)
        ensures
            s@ == (match self {
                ChunkError::MissingSize => "chunked: missing size line"@,
                ChunkError::BadLine => "chunked: bad size line"@,
                ChunkError::BadSize => "chunked: bad size"@,
                ChunkError::Truncated => "chunked: truncated chunk"@,
            }),
    {
        match self {
            ChunkError::MissingSize => "chunked: missing size line",
            ChunkError::BadLine => "chunked: bad size line",
            ChunkError::BadSize => "chunked: bad size",
            ChunkError::Truncated => "chunked: truncated chunk",
        }
    }
}

/// The size that a size line gives. Read strictly, the line must be text and
/// may carry an extension behind a semicolon; read loosely, it is the number.
pub open spec fn chunk_size(line: Seq<u8>, strict: bool) -> Result<nat, ChunkError> {
    if strict && !valid_utf8(line) {
        Err(ChunkError::BadLine)
    } else {
        let text = crate::text::trimmed(lossy_text(line));
        let digits = if strict {
            crate::text::split_on(text, ';')[0]
        } else {
            text
        };
        match hex_number(digits, usize::MAX as nat) {
            Some(n) => Ok(n),
            None => Err(ChunkError::BadSize),
        }
    }
}

/// The body that a row of chunks carries: each a size line, that many bytes
/// and the end of a line; the last has size zero.
pub open spec fn chunks_of(b: Seq<u8>, strict: bool) -> Result<Seq<u8>, ChunkError>
    decreases b.len(),
{
    proof {
        crate::bytes::lemma_match_within(b, crlf(), 0);
    }
    match first_match(b, crlf(), 0) {
        None => Err(ChunkError::MissingSize),
        Some(nl) => match chunk_size(b.take(nl), strict) {
            Err(e) => Err(e),
            Ok(size) => {
                let rest = b.skip(nl + 2);
                if size == 0 {
                    Ok(Seq::empty())
                } else if rest.len() < size + 2 {
                    Err(ChunkError::Truncated)
                } else {
                    match chunks_of(rest.skip(2int + size), strict) {
                        Ok(more) => Ok(rest.take(size as int) + more),
                        Err(e) => Err(e),
                    }
                }
            },
        },
    }
}

fn read_chunk_size(line: &Vec<u8>, strict: bool) -> (r: Result<usize, ChunkError>)
    ensures
        match r {
            Ok(n) => chunk_size(line@, strict) == Ok::<nat, ChunkError>(n as nat),
            Err(e) => chunk_size(line@, strict) == Err::<nat, ChunkError>(e),
        },
{
    let digits: String = if strict {
        match from_utf8(line.as_slice()) {
            None => {
                return Err(ChunkError::BadLine);
            },
            Some(t) => {
                let parts: Vec<String> = split_char(trim(t.as_str()).as_str(), ';');
                owned(parts[0].as_str())
            },
        }
    } else {
        let t: String = from_utf8_lossy(line.as_slice());
        trim(t.as_str())
    };
    match parse_hex(digits.as_str(), usize::MAX as u64) {
        Some(n) => Ok(n as usize),
        None => Err(ChunkError::BadSize),
    }
}

fn new_crlf() -> (v: Vec<u8>)
    ensures
        v@ == crlf(),
{
    let v: Vec<u8> = vec![13, 10];
    assert(v@ =~= crlf());
    v
}

/// Read a body in chunks.
pub fn read_chunks(b: &[u8], strict: bool) -> (r: Result<Vec<u8>, ChunkError>)
    ensures
        match r {
            Ok(out) => chunks_of(b@, strict) == Ok::<Seq<u8>, ChunkError>(out@),
            Err(e) => chunks_of(b@, strict) == Err::<Seq<u8>, ChunkError>(e),
        },
{
    let n: usize = b.len();
    let nl_pat: Vec<u8> = new_crlf();
    let mut out: Vec<u8> = Vec::new();
    let mut pos: usize = 0;
    assert(b@.skip(0) =~= b@);
    loop
        invariant
            n == b@.len(),
            nl_pat@ == crlf(),
            pos <= n,
            match chunks_of(b@.skip(pos as int), strict) {
                Ok(more) => chunks_of(b@, strict) == Ok::<Seq<u8>, ChunkError>(out@ + more),
                Err(e) => chunks_of(b@, strict) == Err::<Seq<u8>, ChunkError>(e),
            },
        decreases n - pos,
    {
        let rest: Vec<u8> = slice_of(b, pos, n);
        let ghost cur = b@.skip(pos as int);
        assert(rest@ =~= cur);
        match find_bytes(rest.as_slice(), &nl_pat, 0) {
            None => {
                return Err(ChunkError::MissingSize);
            },
            Some(nl) => {
                let line: Vec<u8> = slice_of(rest.as_slice(), 0, nl);
                assert(line@ =~= cur.take(nl as int));
                let size: usize = match read_chunk_size(&line, strict) {
                    Err(e) => {
                        return Err(e);
                    },
                    Ok(size) => size,
                };
                if size == 0 {
                    assert(out@ + Seq::<u8>::empty() =~= out@);
                    return Ok(out);
                }
                let body: usize = pos + nl + 2;
                if n - body < 2 || n - body - 2 < size {
                    return Err(ChunkError::Truncated);
                }
                let part: Vec<u8> = slice_of(b, body, body + size);
                let ghost before = out@;
                push_bytes(&mut out, part.as_slice());
                let next: usize = body + size + 2;
                proof {
                    let tail = cur.skip(nl + 2);
                    assert(part@ =~= tail.take(size as int));
                    assert(tail.skip(2int + size) =~= b@.skip(next as int));
                    match chunks_of(b@.skip(next as int), strict) {
                        Ok(more) => {
                            assert(before + (part@ + more) =~= (before + part@) + more);
                        },
                        Err(_) => {},
                    }
                }
                pos = next;
            },
        }
    }
}

/// What is wrong with an answer.
#[derive(Debug, Clone, Copy, PartialEq, Eq, Structural)]
pub enum ResponseError {
    NoTerminator,
    BadStatusLine,
    /// Another status than 200.
    Status(u16),
    Chunks(ChunkError),
}

impl ResponseError {
    /// What to say of the request for a path.
    pub fn message(&self, path: &str) -> (s: String)
        ensures
            s@ == (match self {
                ResponseError::NoTerminator => "malformed HTTP response (no header terminator)"@,
                ResponseError::BadStatusLine => "malformed status line"@,
                ResponseError::Status(n) => "GET "@ + path@ + ": HTTP "@ + crate::text::decimal(
                    *n as nat,
                ),
                ResponseError::Chunks(ChunkError::MissingSize) => "chunked: missing size line"@,
                ResponseError::Chunks(ChunkError::BadLine) => "chunked: bad size line"@,
                ResponseError::Chunks(ChunkError::BadSize) => "chunked: bad size"@,
                ResponseError::Chunks(ChunkError::Truncated) => "chunked: truncated chunk"@,
            }),
    {
        match self {
            ResponseError::NoTerminator => owned("malformed HTTP response (no header terminator)"),
            ResponseError::BadStatusLine => owned("malformed status line"),
            ResponseError::Status(n) => crate::text::cat4(
                "GET ",
                path,
                ": HTTP ",
                decimal_str(*n as u64).as_str(),
            ),
            ResponseError::Chunks(e) => owned(e.message()),
        }
    }
}

/// The status that the head of an answer gives: the second word of its first
/// line.
pub open spec fn status_of(head: Seq<char>) -> Option<nat> {
    let ls = crate::text::lines_of(head);
    if ls.len() == 0 {
        None
    } else {
        let ws = crate::text::words_of(ls[0]);
        if ws.len() < 2 {
            None
        } else {
            crate::text::parse_dec(ws[1], u16::MAX as nat)
        }
    }
}

/// Whether a line of the head says that the body is in chunks.
pub open spec fn says_chunked(line: Seq<char>) -> bool {
    crate::text::trimmed(crate::text::ascii_lower(line)) == "transfer-encoding: chunked"@
}

pub open spec fn head_chunked(head: Seq<char>) -> bool {
    let ls = crate::text::lines_of(head);
    exists|i: int| 0 <= i < ls.len() && says_chunked(#[trigger] ls[i])
}

/// The text that an answer carries.
pub open spec fn response_text(raw: Seq<u8>) -> Result<Seq<char>, ResponseError> {
    match first_match(raw, header_end(), 0) {
        None => Err(ResponseError::NoTerminator),
        Some(split) => {
            let head = lossy_text(raw.take(split));
            let body = raw.skip(split + 4);
            match status_of(head) {
                None => Err(ResponseError::BadStatusLine),
                Some(status) => if status != 200 {
                    Err(ResponseError::Status(status as u16))
                } else if head_chunked(head) {
                    match chunks_of(body, true) {
                        Ok(b) => Ok(lossy_text(b)),
                        Err(e) => Err(ResponseError::Chunks(e)),
                    }
                } else {
                    Ok(lossy_text(body))
                },
            }
        },
    }
}

fn read_status(head: &str) -> (r: Option<u16>)
    ensures
        match r {
            Some(n) => status_of(head@) == Some(n as nat),
            None => status_of(head@) is None,
        },
{
    let ls: Vec<String> = lines(head);
    let ghost lv = crate::text::views(ls@);
    if ls.len() == 0 {
        return None;
    }
    assert(lv[0] == ls@[0]@);
    let ws: Vec<String> = words(ls[0].as_str());
    let ghost wv = crate::text::views(ws@);
    if ws.len() < 2 {
        return None;
    }
    assert(wv[1] == ws@[1]@);
    parse_u16(ws[1].as_str())
}

fn is_chunked(head: &str) -> (r: bool)
    ensures
        r == head_chunked(head@),
{
    let ls: Vec<String> = lines(head);
    let ghost lv = crate::text::views(ls@);
    let mut i: usize = 0;
    while i < ls.len()
        invariant
            i <= ls@.len(),
            lv == crate::text::views(ls@),
            lv == crate::text::lines_of(head@),
            forall|j: int| 0 <= j < i ==> !says_chunked(#[trigger] lv[j]),
        decreases ls@.len() - i,
    {
        let low: String = to_ascii_lowercase(ls[i].as_str());
        let line: String = trim(low.as_str());
        assert(lv[i as int] == ls@[i as int]@);
        if same(line.as_str(), "transfer-encoding: chunked") {
            assert(says_chunked(lv[i as int]));
            return true;
        }
        i = i + 1;
    }
    false
}

fn new_header_end() -> (v: Vec<u8>)
    ensures
        v@ == header_end(),
{
    let v: Vec<u8> = vec![13, 10, 13, 10];
    assert(v@ =~= header_end());
    v
}

/// Read the text of an answer with status 200.
pub fn parse_response(raw: &[u8]) -> (r: Result<String, ResponseError>)
    ensures
        match r {
            Ok(s) => response_text(raw@) == Ok::<Seq<char>, ResponseError>(s@),
            Err(e) => response_text(raw@) == Err::<Seq<char>, ResponseError>(e),
        },
{
    let n: usize = raw.len();
    let end: Vec<u8> = new_header_end();
    match find_bytes(raw, &end, 0) {
        None => Err(ResponseError::NoTerminator),
        Some(split) => {
            let head_bytes: Vec<u8> = slice_of(raw, 0, split);
            let body: Vec<u8> = slice_of(raw, split + 4, n);
            assert(head_bytes@ =~= raw@.take(split as int));
            assert(body@ =~= raw@.skip(split + 4));
            let head: String = from_utf8_lossy(head_bytes.as_slice());
            match read_status(head.as_str()) {
                None => Err(ResponseError::BadStatusLine),
                Some(status) => if status != 200 {
                    Err(ResponseError::Status(status))
                } else if is_chunked(head.as_str()) {
                    match read_chunks(body.as_slice(), true) {
                        Ok(b) => Ok(from_utf8_lossy(b.as_slice())),
                        Err(e) => Err(ResponseError::Chunks(e)),
                    }
                } else {
                    Ok(from_utf8_lossy(body.as_slice()))
                },
            }
        },
    }
}

/// What is wrong with an answer of the container engine.
#[derive(Debug, Clone, Copy, PartialEq, Eq, Structural)]
pub enum EngineError {
    NoTerminator,
    /// The answer is not `HTTP/1.1 200`.
    NotOk,
    Chunks(ChunkError),
}

/// The body that an answer of the engine carries.
pub open spec fn engine_body_of(raw: Seq<u8>) -> Result<Seq<u8>, EngineError> {
    match first_match(raw, header_end(), 0) {
        None => Err(EngineError::NoTerminator),
        Some(split) => {
            let head = crate::text::ascii_lower(lossy_text(raw.take(split)));
            let body = raw.skip(split + 4);
            if !crate::text::has_prefix(head, "http/1.1 200"@) {
                Err(EngineError::NotOk)
            } else if crate::text::has_part(head, "transfer-encoding: chunked"@) {
                match chunks_of(body, false) {
                    Ok(b) => Ok(b),
                    Err(e) => Err(EngineError::Chunks(e)),
                }
            } else {
                Ok(body)
            }
        },
    }
}

/// Read the body of an answer of the container engine.
pub fn engine_body(raw: &[u8]) -> (r: Result<Vec<u8>, EngineError>)
    ensures
        match r {
            Ok(b) => engine_body_of(raw@) == Ok::<Seq<u8>, EngineError>(b@),
            Err(e) => engine_body_of(raw@) == Err::<Seq<u8>, EngineError>(e),
        },
{
    let n: usize = raw.len();
    let end: Vec<u8> = new_header_end();
    match find_bytes(raw, &end, 0) {
        None => Err(EngineError::NoTerminator),
        Some(split) => {
            let head_bytes: Vec<u8> = slice_of(raw, 0, split);
            let body: Vec<u8> = slice_of(raw, split + 4, n);
            assert(head_bytes@ =~= raw@.take(split as int));
            assert(body@ =~= raw@.skip(split + 4));
            let text: String = from_utf8_lossy(head_bytes.as_slice());
            let head: String = to_ascii_lowercase(text.as_str());
            if !starts_with(head.as_str(), "http/1.1 200") {
                Err(EngineError::NotOk)
            } else if contains(head.as_str(), "transfer-encoding: chunked") {
                match read_chunks(body.as_slice(), false) {
                    Ok(b) => Ok(b),
                    Err(e) => Err(EngineError::Chunks(e)),
                }
            } else {
                Ok(body)
            }
        },
    }
}

/// The request line and headers of a GET that closes the connection.
pub fn get_request(host: &str, path: &str) -> (s: String)
    ensures
        s@ == "GET "@ + path@ + " HTTP/1.1\r\nHost: "@ + host@ + "\r\nConnection: close\r\n\r\n"@,
{
    crate::text::cat5("GET ", path, " HTTP/1.1\r\nHost: ", host, "\r\nConnection: close\r\n\r\n")
}

/// The chunk that carries some bytes: the size in hexadecimal, the bytes, the
/// end of a line.
pub open spec fn chunk(size_line: Seq<u8>, data: Seq<u8>) -> Seq<u8> {
    size_line + crlf() + data + crlf()
}

/// A body that is sent in chunks is read back whole: after a chunk whose size
/// line says how many bytes it holds, reading goes on behind it.
pub proof fn chunks_read_back(size_line: Seq<u8>, data: Seq<u8>, rest: Seq<u8>, strict: bool)
    requires
        first_match(size_line + crlf(), crlf(), 0) == Some(size_line.len() as int),
        chunk_size(size_line, strict) == Ok::<nat, ChunkError>(data.len()),
        data.len() > 0,
    ensures
        match chunks_of(rest, strict) {
            Ok(more) => chunks_of(chunk(size_line, data) + rest, strict) == Ok::<
                Seq<u8>,
                ChunkError,
            >(data + more),
            Err(e) => chunks_of(chunk(size_line, data) + rest, strict) == Err::<
                Seq<u8>,
                ChunkError,
            >(e),
        },
{
    let whole = chunk(size_line, data) + rest;
    let nl = size_line.len() as int;
    lemma_match_in_prefix(size_line + crlf(), data + crlf() + rest, crlf(), 0);
    assert((size_line + crlf()) + (data + crlf() + rest) =~= whole);
    assert(whole.take(nl) =~= size_line);
    let tail = whole.skip(nl + 2);
    assert(tail =~= data + crlf() + rest);
    assert(tail.take(data.len() as int) =~= data);
    assert(tail.skip(2int + data.len()) =~= rest);
}

proof fn lemma_match_in_prefix(a: Seq<u8>, b: Seq<u8>, pat: Seq<u8>, from: int)
    requires
        first_match(a, pat, from) is Some,
    ensures
        first_match(a + b, pat, from) == first_match(a, pat, from),
    decreases a.len() - from,
{
    assert((a + b).subrange(from, from + pat.len()) =~= a.subrange(from, from + pat.len()));
    if a.subrange(from, from + pat.len()) == pat {
    } else if from >= a.len() {
    } else {
        lemma_match_in_prefix(a, b, pat, from + 1);
    }
}

/// An answer is taken apart at the first empty line: what stands before it is
/// the head, and what stands behind it the body. Its text is the body's, of
/// chunks what they carry, where the status is 200; every other status is an
/// error of its own.
pub proof fn an_answer_is_taken_apart(head: Seq<u8>, body: Seq<u8>)
    requires
        first_match(head + header_end(), header_end(), 0) == Some(head.len() as int),
    ensures
        ({
            let raw = head + seq![13u8, 10u8, 13u8, 10u8] + body;
            let h = lossy_text(head);
            &&& status_of(h) == Some(200nat) && !head_chunked(h) ==> response_text(raw) == Ok::<
                Seq<char>,
                ResponseError,
            >(lossy_text(body))
            &&& status_of(h) == Some(200nat) && head_chunked(h) && chunks_of(body, true) is Ok
                ==> response_text(raw) == Ok::<Seq<char>, ResponseError>(
                lossy_text(chunks_of(body, true)->Ok_0),
            )
            &&& (status_of(h) matches Some(n) && n != 200) ==> response_text(raw) == Err::<
                Seq<char>,
                ResponseError,
            >(ResponseError::Status(status_of(h)->0 as u16))
            &&& status_of(h) is None ==> response_text(raw) == Err::<Seq<char>, ResponseError>(
                ResponseError::BadStatusLine,
            )
            &&& crate::text::has_prefix(crate::text::ascii_lower(h), "http/1.1 200"@)
                && !crate::text::has_part(
                crate::text::ascii_lower(h),
                "transfer-encoding: chunked"@,
            ) ==> engine_body_of(raw) == Ok::<Seq<u8>, EngineError>(body)
            &&& !crate::text::has_prefix(crate::text::ascii_lower(h), "http/1.1 200"@)
                ==> engine_body_of(raw) == Err::<Seq<u8>, EngineError>(EngineError::NotOk)
        }),
{
    let raw = head + seq![13u8, 10u8, 13u8, 10u8] + body;
    assert(raw =~= (head + header_end()) + body);
    lemma_match_in_prefix(head + header_end(), body, header_end(), 0);
    assert(raw.take(head.len() as int) =~= head);
    assert(raw.skip(head.len() as int + 4) =~= body);
}

/// The status is the second word of the first line.
pub proof fn the_status_is_the_second_word(version: Seq<char>, n: u16, reason: Seq<char>, rest: Seq<char>)
    requires
        version.len() > 0,
        forall|i: int| 0 <= i < version.len() ==> !crate::text::white(#[trigger] version[i]),
        !reason.contains('\n'),
        reason.len() > 0,
        reason.last() != '\r',
    ensures
        status_of(
            version.push(' ') + crate::text::decimal(n as nat).push(' ') + reason.push('\n') + rest,
        ) == Some(n as nat),
{
    let d = crate::text::decimal(n as nat);
    let line = version.push(' ') + d.push(' ') + reason;
    let all = version.push(' ') + d.push(' ') + reason.push('\n') + rest;
    crate::text::decimal_reads_back(n as nat);
    assert(crate::text::parse_dec(d, u16::MAX as nat) == Some(n as nat));
    assert(all =~= line.push('\n') + rest);
    assert forall|i: int| 0 <= i < d.len() implies !crate::text::white(#[trigger] d[i]) by {
        assert(crate::text::is_digit(d[i]));
    }
    assert(!line.contains('\n')) by {
        assert forall|i: int| 0 <= i < line.len() implies line[i] != '\n' by {
            let v = version.len() as int;
            if i < v {
                assert(!crate::text::white(version[i]));
            } else if i == v {
            } else if i < v + 1 + d.len() {
                assert(crate::text::is_digit(d[i - v - 1]));
            } else if i == v + 1 + d.len() {
            } else {
                let k = i - v - 2 - d.len();
                assert(line[i] == reason[k]);
                assert(reason.contains(reason[k]));
            }
        }
    }
    assert(line.last() == reason.last());
    crate::text::a_line_splits_off(line, rest);
    crate::text::a_word_splits_off(d, ' ', reason);
    crate::text::a_word_splits_off(version, ' ', d.push(' ') + reason);
    assert(line =~= version.push(' ') + (d.push(' ') + reason));
    let ws = crate::text::words_of(line);
    assert(ws =~= seq![version] + (seq![d] + crate::text::words_of(reason)));
    assert(ws[1] == d);
}

} // verus!

//! Minimal DNS wire codec for Nebula's resolver path.
//!
//! Guest queries hit the agent's proxy, hop to the daemon over UDP, and get
//! resolved on the host, so DNS follows whatever the host's resolver does. Only
//! what that path needs is implemented: parse one question, answer with A or
//! AAAA records, or signal failure.

use crate::bytes::{
    be16, be32, from_be16, from_utf8_lossy, push_be16, push_be32, push_bytes, read_be16, slice_of,
};
use crate::text::{join, split_char};
use vstd::prelude::*;
use vstd::string::StrSliceExecFns;

verus! {

#[derive(Debug, Clone, PartialEq)]
pub struct Question {
    pub name: String,
    pub qtype: u16,
    pub qclass: u16,
}

pub const QTYPE_A: u16 = 1;

pub const QTYPE_AAAA: u16 = 28;

/// Response, recursion desired, recursion available.
pub const RESPONSE_FLAGS: u16 = 0x8180;

pub const RCODE_SERVFAIL: u16 = 2;

pub const RCODE_NXDOMAIN: u16 = 3;

/// An IP address as its octets.
#[derive(Debug, Clone, Copy, PartialEq, Eq)]
pub enum IpAddr {
    V4([u8; 4]),
    V6([u8; 16]),
}

/// The labels of the name that starts at `pos`, and the position after its
/// terminating zero; `None` if the name runs off the packet or holds a length
/// byte of 64 or more (compression pointers are illegal in a question).
pub open spec fn labels_at(p: Seq<u8>, pos: int) -> Option<(Seq<Seq<u8>>, int)>
    decreases p.len() - pos,
{
    if pos < 0 || pos >= p.len() {
        None
    } else if p[pos] == 0 {
        Some((Seq::empty(), pos + 1))
    } else if p[pos] >= 64 || pos + 1 + p[pos] > p.len() {
        None
    } else {
        match labels_at(p, pos + 1 + p[pos]) {
            Some((rest, end)) => Some((seq![p.subrange(pos + 1, pos + 1 + p[pos])] + rest, end)),
            None => None,
        }
    }
}

/// Each label as text.
pub open spec fn label_texts(labels: Seq<Seq<u8>>) -> Seq<Seq<char>> {
    labels.map_values(|l: Seq<u8>| crate::bytes::lossy_text(l))
}

/// A question as its name's characters, type and class.
pub struct QuestionView {
    pub name: Seq<char>,
    pub qtype: u16,
    pub qclass: u16,
}

impl View for Question {
    type V = QuestionView;

    open spec fn view(&self) -> QuestionView {
        QuestionView { name: self.name@, qtype: self.qtype, qclass: self.qclass }
    }
}

/// The id and the first question of a packet: a header of twelve bytes with a
/// non-zero question count, a name of at most 32 labels, its type and class.
pub open spec fn query_of(p: Seq<u8>) -> Option<(u16, QuestionView)> {
    if p.len() < 12 || from_be16(p[4], p[5]) == 0 {
        None
    } else {
        match labels_at(p, 12) {
            Some((labels, end)) => if labels.len() <= 32 && end + 4 <= p.len() {
                Some(
                    (
                        from_be16(p[0], p[1]),
                        QuestionView {
                            name: crate::text::joined(label_texts(labels), "."@),
                            qtype: from_be16(p[end], p[end + 1]),
                            qclass: from_be16(p[end + 2], p[end + 3]),
                        },
                    ),
                )
            } else {
                None
            },
            None => None,
        }
    }
}

/// Parse the first question of a DNS query. Returns (id, question).
pub fn parse_query(packet: &[u8]) -> (r: Option<(u16, Question)>)
    ensures
        match r {
            Some((id, q)) => query_of(packet@) == Some((id, q@)),
            None => query_of(packet@) is None,
        },
{
    let n: usize = packet.len();
    if n < 12 {
        return None;
    }
    let id: u16 = read_be16(packet[0], packet[1]);
    if read_be16(packet[4], packet[5]) == 0 {
        return None;
    }
    let ghost p = packet@;
    let mut pos: usize = 12;
    let mut labels: Vec<String> = Vec::new();
    let ghost mut raw: Seq<Seq<u8>> = Seq::empty();
    proof {
        assert(crate::text::views(labels@) =~= label_texts(raw));
        match labels_at(p, 12) {
            Some((rest, end)) => {
                assert(raw + rest =~= rest);
            },
            None => {},
        }
    }
    loop
        invariant_except_break
            p == packet@,
            n == p.len(),
            12 <= pos,
            pos <= n,
            raw.len() <= 32,
            crate::text::views(labels@) == label_texts(raw),
            labels_at(p, 12) == (match labels_at(p, pos as int) {
                Some((rest, end)) => Some((raw + rest, end)),
                None => None,
            }),
        ensures
            pos <= n,
            raw.len() <= 32,
            crate::text::views(labels@) == label_texts(raw),
            labels_at(p, 12) == Some((raw, pos as int)),
        decreases n - pos,
    {
        if pos >= n {
            return None;
        }
        let len: usize = packet[pos] as usize;
        if len == 0 {
            proof {
                assert(raw + Seq::<Seq<u8>>::empty() =~= raw);
            }
            pos = pos + 1;
            break;
        }
        if len >= 64 || n - pos - 1 < len {
            return None;
        }
        let label: Vec<u8> = slice_of(packet, pos + 1, pos + 1 + len);
        let ghost raw0 = raw;
        let ghost texts0 = crate::text::views(labels@);
        let text: String = from_utf8_lossy(label.as_slice());
        let ghost new = text@;
        labels.push(text);
        proof {
            raw = raw0.push(label@);
            assert(crate::text::views(labels@) =~= texts0.push(new));
            assert(label_texts(raw) =~= label_texts(raw0).push(new));
            match labels_at(p, pos + 1 + len as int) {
                Some((rest, end)) => {
                    assert(raw0 + (seq![label@] + rest) =~= raw + rest);
                },
                None => {},
            }
        }
        pos = pos + 1 + len;
        if labels.len() > 32 {
            return None;
        }
    }
    if n - pos < 4 {
        return None;
    }
    let qtype: u16 = read_be16(packet[pos], packet[pos + 1]);
    let qclass: u16 = read_be16(packet[pos + 2], packet[pos + 3]);
    let name: String = join(&labels, ".");
    Some((id, Question { name, qtype, qclass }))
}

/// A label on the wire: its length, at most 63, and that many of its bytes.
pub open spec fn label_bytes(label: Seq<char>) -> Seq<u8> {
    let bytes = vstd::utf8::encode_utf8(label);
    let n = if bytes.len() < 63 {
        bytes.len() as int
    } else {
        63
    };
    seq![n as u8] + bytes.take(n)
}

/// The labels that are not empty, one after the other.
pub open spec fn labels_bytes(labels: Seq<Seq<char>>) -> Seq<u8>
    decreases labels.len(),
{
    if labels.len() == 0 {
        Seq::empty()
    } else if labels.last().len() == 0 {
        labels_bytes(labels.drop_last())
    } else {
        labels_bytes(labels.drop_last()) + label_bytes(labels.last())
    }
}

/// A name on the wire: its labels and a zero.
pub open spec fn name_bytes(name: Seq<char>) -> Seq<u8> {
    labels_bytes(crate::text::split_on(name, '.')).push(0)
}

/// Append a name.
pub fn encode_name(name: &str, out: &mut Vec<u8>)
    ensures
        final(out)@ == old(out)@ + name_bytes(name@),
{
    let labels: Vec<String> = split_char(name, '.');
    let ghost lv = crate::text::views(labels@);
    let mut i: usize = 0;
    proof {
        assert(lv.take(0) =~= Seq::empty());
    }
    while i < labels.len()
        invariant
            i <= labels@.len(),
            lv == crate::text::views(labels@),
            out@ =~= old(out)@ + labels_bytes(lv.take(i as int)),
        decreases labels@.len() - i,
    {
        let ghost longer = lv.take(i as int + 1);
        proof {
            assert(longer.drop_last() =~= lv.take(i as int));
            assert(longer.last() == labels@[i as int]@);
        }
        if labels[i].as_str().unicode_len() > 0 {
            let bytes: &[u8] = labels[i].as_str().as_bytes();
            let n: usize = if bytes.len() < 63 { bytes.len() } else { 63 };
            out.push(n as u8);
            let head: Vec<u8> = slice_of(bytes, 0, n);
            push_bytes(out, head.as_slice());
            proof {
                assert(bytes@.subrange(0, n as int) =~= bytes@.take(n as int));
            }
        }
        i = i + 1;
    }
    proof {
        assert(lv.take(labels@.len() as int) =~= lv);
    }
    out.push(0);
}

/// A response header: one question, `ancount` answers, nothing else.
pub open spec fn header_bytes(id: u16, rcode: u16, ancount: u16) -> Seq<u8> {
    be16(id) + be16((RESPONSE_FLAGS + rcode) as u16) + be16(1) + be16(ancount) + be16(0) + be16(0)
}

fn response_header(id: u16, rcode: u16, ancount: u16, out: &mut Vec<u8>)
    requires
        rcode < 16,
    ensures
        final(out)@ == old(out)@ + header_bytes(id, rcode, ancount),
{
    push_be16(out, id);
    push_be16(out, RESPONSE_FLAGS + rcode);
    push_be16(out, 1);
    push_be16(out, ancount);
    push_be16(out, 0);
    push_be16(out, 0);
    assert(out@ =~= old(out)@ + header_bytes(id, rcode, ancount));
}

/// A question on the wire.
pub open spec fn question_bytes(q: QuestionView) -> Seq<u8> {
    name_bytes(q.name) + be16(q.qtype) + be16(q.qclass)
}

fn push_question(q: &Question, out: &mut Vec<u8>)
    ensures
        final(out)@ == old(out)@ + question_bytes(q@),
{
    encode_name(q.name.as_str(), out);
    push_be16(out, q.qtype);
    push_be16(out, q.qclass);
    assert(out@ =~= old(out)@ + question_bytes(q@));
}

/// Whether an address answers a question of this type.
pub open spec fn answers(qtype: u16, ip: IpAddr) -> bool {
    match ip {
        IpAddr::V4(_) => qtype == QTYPE_A,
        IpAddr::V6(_) => qtype == QTYPE_AAAA,
    }
}

/// The addresses that answer a question of this type, in order.
pub open spec fn matching(qtype: u16, ips: Seq<IpAddr>) -> Seq<IpAddr> {
    ips.filter(|ip: IpAddr| answers(qtype, ip))
}

/// One answer: the question's name by a pointer to it, type, class, time to
/// live and the address.
pub open spec fn answer_bytes(ip: IpAddr, ttl: u32) -> Seq<u8> {
    match ip {
        IpAddr::V4(a) => seq![0xC0u8, 0x0C] + be16(QTYPE_A) + be16(1) + be32(ttl) + be16(4) + a@,
        IpAddr::V6(a) => seq![0xC0u8, 0x0C] + be16(QTYPE_AAAA) + be16(1) + be32(ttl) + be16(16)
            + a@,
    }
}

pub open spec fn answers_bytes(ips: Seq<IpAddr>, ttl: u32) -> Seq<u8>
    decreases ips.len(),
{
    if ips.len() == 0 {
        Seq::empty()
    } else {
        answers_bytes(ips.drop_last(), ttl) + answer_bytes(ips.last(), ttl)
    }
}

/// A response: header with the number of answers (modulo 2^16), the question,
/// the answers of the question's type.
pub open spec fn response_bytes(id: u16, q: QuestionView, ips: Seq<IpAddr>, ttl: u32) -> Seq<u8> {
    let found = matching(q.qtype, ips);
    header_bytes(id, 0, (found.len() % 0x1_0000) as u16) + question_bytes(q) + answers_bytes(
        found,
        ttl,
    )
}

fn is_answer(qtype: u16, ip: &IpAddr) -> (r: bool)
    ensures
        r == answers(qtype, *ip),
{
    match ip {
        IpAddr::V4(_) => qtype == QTYPE_A,
        IpAddr::V6(_) => qtype == QTYPE_AAAA,
    }
}

/// Build a response carrying the given addresses, filtered to the question's
/// type. Without any: no error and no answers.
pub fn build_response(id: u16, q: &Question, ips: &[IpAddr], ttl: u32) -> (out: Vec<u8>)
    ensures
        out@ == response_bytes(id, q@, ips@, ttl),
{
    let mut found: Vec<IpAddr> = Vec::new();
    let mut i: usize = 0;
    proof {
        assert(ips@.take(0) =~= Seq::empty());
        assert(Seq::<IpAddr>::empty().filter(|ip: IpAddr| answers(q.qtype, ip)) =~= Seq::empty()) by {
            reveal(Seq::filter);
        }
    }
    while i < ips.len()
        invariant
            i <= ips@.len(),
            found@ == matching(q.qtype, ips@.take(i as int)),
        decreases ips@.len() - i,
    {
        let ghost longer = ips@.take(i as int + 1);
        proof {
            reveal(Seq::filter);
            assert(longer.drop_last() =~= ips@.take(i as int));
            assert(longer.last() == ips@[i as int]);
        }
        if is_answer(q.qtype, &ips[i]) {
            found.push(ips[i]);
        }
        i = i + 1;
    }
    proof {
        assert(ips@.take(ips@.len() as int) =~= ips@);
    }
    let mut out: Vec<u8> = Vec::new();
    let count: usize = found.len();
    response_header(id, 0, (count % 0x1_0000) as u16, &mut out);
    push_question(q, &mut out);
    let ghost head = out@;
    let mut k: usize = 0;
    proof {
        assert(found@.take(0) =~= Seq::empty());
        assert(head =~= header_bytes(id, 0, (found@.len() % 0x1_0000) as u16) + question_bytes(
            q@,
        ));
    }
    while k < found.len()
        invariant
            k <= found@.len(),
            out@ =~= head + answers_bytes(found@.take(k as int), ttl),
        decreases found@.len() - k,
    {
        let ghost longer = found@.take(k as int + 1);
        let ghost before = out@;
        proof {
            assert(longer.drop_last() =~= found@.take(k as int));
            assert(longer.last() == found@[k as int]);
        }
        out.push(0xC0);
        out.push(0x0C);
        match &found[k] {
            IpAddr::V4(a) => {
                push_be16(&mut out, QTYPE_A);
                push_be16(&mut out, 1);
                push_be32(&mut out, ttl);
                push_be16(&mut out, 4);
                push_bytes(&mut out, a.as_slice());
            },
            IpAddr::V6(a) => {
                push_be16(&mut out, QTYPE_AAAA);
                push_be16(&mut out, 1);
                push_be32(&mut out, ttl);
                push_be16(&mut out, 16);
                push_bytes(&mut out, a.as_slice());
            },
        }
        proof {
            assert(out@ =~= before + answer_bytes(found@[k as int], ttl));
        }
        k = k + 1;
    }
    proof {
        assert(found@.take(found@.len() as int) =~= found@);
    }
    out
}

/// A response without answers: no such name, or a failure.
pub open spec fn error_bytes(id: u16, q: QuestionView, nxdomain: bool) -> Seq<u8> {
    header_bytes(id, if nxdomain { RCODE_NXDOMAIN } else { RCODE_SERVFAIL }, 0) + question_bytes(q)
}

/// Build a failure: no such domain, or a server failure.
pub fn build_error(id: u16, q: &Question, nxdomain: bool) -> (out: Vec<u8>)
    ensures
        out@ == error_bytes(id, q@, nxdomain),
{
    let mut out: Vec<u8> = Vec::new();
    response_header(id, if nxdomain { RCODE_NXDOMAIN } else { RCODE_SERVFAIL }, 0, &mut out);
    push_question(q, &mut out);
    out
}

/// A name that the wire carries whole: the root, or at most 32 labels, none of
/// them empty, of at most 63 bytes each.
pub open spec fn fits_the_wire(name: Seq<char>) -> bool {
    let labels = crate::text::split_on(name, '.');
    name.len() == 0 || (labels.len() <= 32 && forall|i: int|
        0 <= i < labels.len() ==> label_fits(#[trigger] labels[i]))
}

pub open spec fn label_fits(label: Seq<char>) -> bool {
    label.len() > 0 && vstd::utf8::encode_utf8(label).len() <= 63
}

pub open spec fn encoded(labels: Seq<Seq<char>>) -> Seq<Seq<u8>> {
    labels.map_values(|l: Seq<char>| vstd::utf8::encode_utf8(l))
}

proof fn lemma_encode_nonempty(label: Seq<char>)
    requires
        label.len() > 0,
    ensures
        vstd::utf8::encode_utf8(label).len() > 0,
{
    vstd::utf8::encode_utf8_first_scalar(label);
}

proof fn lemma_labels_parse(p: Seq<u8>, pos: int, labels: Seq<Seq<char>>)
    requires
        0 <= pos,
        pos + labels_bytes(labels).len() <= p.len(),
        p.subrange(pos, pos + labels_bytes(labels).len()) == labels_bytes(labels),
        forall|i: int| 0 <= i < labels.len() ==> label_fits(#[trigger] labels[i]),
        labels_at(p, pos + labels_bytes(labels).len()) is Some,
    ensures
        labels_at(p, pos) == (match labels_at(p, pos + labels_bytes(labels).len()) {
            Some((rest, end)) => Some((encoded(labels) + rest, end)),
            None => None,
        }),
    decreases labels.len(),
{
    let all = labels_bytes(labels);
    if labels.len() == 0 {
        match labels_at(p, pos) {
            Some((rest, end)) => {
                assert(encoded(labels) + rest =~= rest);
            },
            None => {},
        }
    } else {
        let init = labels.drop_last();
        let last = labels.last();
        let head = labels_bytes(init);
        assert(label_fits(labels[labels.len() - 1]));
        lemma_encode_nonempty(last);
        let enc = vstd::utf8::encode_utf8(last);
        assert(label_bytes(last) =~= seq![enc.len() as u8] + enc);
        assert(all == head + label_bytes(last));
        let at = pos + head.len();
        assert(p[at] == p.subrange(pos, pos + all.len())[head.len() as int]);
        assert(p[at] == enc.len());
        assert(p.subrange(at + 1, at + 1 + enc.len()) =~= enc) by {
            assert forall|k: int| 0 <= k < enc.len() implies #[trigger] p.subrange(
                at + 1,
                at + 1 + enc.len(),
            )[k] == enc[k] by {
                assert(p.subrange(pos, pos + all.len())[head.len() + 1 + k] == all[head.len() + 1 + k]);
            }
        }
        assert(p.subrange(pos, pos + head.len()) =~= head) by {
            assert forall|k: int| 0 <= k < head.len() implies #[trigger] p.subrange(
                pos,
                pos + head.len(),
            )[k] == head[k] by {
                assert(p.subrange(pos, pos + all.len())[k] == all[k]);
            }
        }
        assert forall|i: int| 0 <= i < init.len() implies label_fits(#[trigger] init[i]) by {
            assert(init[i] == labels[i]);
        }
        lemma_labels_parse(p, pos, init);
        match labels_at(p, pos + all.len()) {
            Some((rest, end)) => {
                assert(encoded(init) + (seq![enc] + rest) =~= encoded(labels) + rest);
            },
            None => {},
        }
    }
}

/// A packet of a header with a non-zero question count and a question whose
/// name fits the wire, whatever follows, parses back to its id and question.
pub proof fn question_reads_back(header: Seq<u8>, q: QuestionView, rest: Seq<u8>)
    requires
        header.len() == 12,
        from_be16(header[4], header[5]) != 0,
        fits_the_wire(q.name),
    ensures
        query_of(header + question_bytes(q) + rest) == Some((from_be16(header[0], header[1]), q)),
{
    let p = header + question_bytes(q) + rest;
    let labels = crate::text::split_on(q.name, '.');
    let nb = name_bytes(q.name);
    let written = if q.name.len() == 0 {
        Seq::<Seq<char>>::empty()
    } else {
        labels
    };
    if q.name.len() == 0 {
        assert(labels.len() == 1 && labels.last().len() == 0);
        assert(labels_bytes(labels) == labels_bytes(labels.drop_last()));
        assert(labels.drop_last() =~= Seq::empty());
    }
    assert(labels_bytes(written) == labels_bytes(labels));
    let lb = labels_bytes(written);
    let end = 12int + lb.len();
    assert(p.subrange(12, end) =~= lb);
    assert(p[end] == nb[lb.len() as int]);
    assert(labels_at(p, end) == Some((Seq::<Seq<u8>>::empty(), end + 1)));
    lemma_labels_parse(p, 12, written);
    assert(encoded(written) + Seq::<Seq<u8>>::empty() =~= encoded(written));
    assert(label_texts(encoded(written)) =~= written) by {
        assert forall|i: int| 0 <= i < written.len() implies #[trigger] label_texts(
            encoded(written),
        )[i] == written[i] by {
            vstd::utf8::encode_utf8_decode_utf8(written[i]);
            vstd::utf8::encode_utf8_valid_utf8(written[i]);
        }
    }
    reveal_strlit(".");
    assert("."@ =~= seq!['.']);
    crate::text::split_then_join(q.name, '.');
    if q.name.len() == 0 {
        assert(crate::text::joined(written, "."@) =~= q.name);
    }
    let e = end + 1;
    assert(p[e] == be16(q.qtype)[0]);
    assert(p[e + 1] == be16(q.qtype)[1]);
    assert(p[e + 2] == be16(q.qclass)[0]);
    assert(p[e + 3] == be16(q.qclass)[1]);
    crate::bytes::be16_reads_back(q.qtype);
    crate::bytes::be16_reads_back(q.qclass);
}

/// Every response and every failure carries the id and the question that it
/// answers: parsing it as a query gives both back.
pub proof fn responses_echo_the_question(
    id: u16,
    q: QuestionView,
    ips: Seq<IpAddr>,
    ttl: u32,
    rcode: u16,
)
    requires
        fits_the_wire(q.name),
    ensures
        query_of(response_bytes(id, q, ips, ttl)) == Some((id, q)),
        query_of(header_bytes(id, rcode, 0) + question_bytes(q)) == Some((id, q)),
{
    let found = matching(q.qtype, ips);
    let h = header_bytes(id, 0, (found.len() % 0x1_0000) as u16);
    crate::bytes::be16_reads_back(id);
    question_reads_back(h, q, answers_bytes(found, ttl));
    let e = header_bytes(id, rcode, 0);
    question_reads_back(e, q, Seq::empty());
    assert(e + question_bytes(q) + Seq::<u8>::empty() =~= e + question_bytes(q));
}

/// A response holds the addresses of the question's type and no others: a
/// question of another type than A and AAAA gets none.
pub proof fn only_matching_addresses(qtype: u16, ips: Seq<IpAddr>)
    ensures
        forall|i: int| 0 <= i < matching(qtype, ips).len() ==> answers(qtype, #[trigger] matching(
            qtype,
            ips,
        )[i]) && ips.contains(matching(qtype, ips)[i]),
        qtype != QTYPE_A && qtype != QTYPE_AAAA ==> matching(qtype, ips).len() == 0,
{
    let found = matching(qtype, ips);
    assert forall|i: int| 0 <= i < found.len() implies answers(qtype, #[trigger] found[i])
        && ips.contains(found[i]) by {
        ips.lemma_filter_pred(|ip: IpAddr| answers(qtype, ip), i);
        assert(found.contains(found[i]));
        ips.lemma_filter_contains_rev(|ip: IpAddr| answers(qtype, ip), found[i]);
    }
    if found.len() > 0 {
        assert(answers(qtype, found[0]));
    }
}

// Reading a response, as a resolver does.

pub open spec fn read16(p: Seq<u8>, at: int) -> int {
    p[at] * 256 + p[at + 1]
}

pub open spec fn read32(p: Seq<u8>, at: int) -> int {
    p[at] * 0x100_0000 + p[at + 1] * 0x1_0000 + p[at + 2] * 256 + p[at + 3]
}

/// A resource record.
pub struct Record {
    pub owner: Seq<char>,
    pub kind: int,
    pub class: int,
    pub ttl: int,
    pub data: Seq<u8>,
}

/// The name at a place of a packet, and where it ends: its labels, or a pointer
/// to them.
pub open spec fn name_at(p: Seq<u8>, pos: int) -> Option<(Seq<char>, int)> {
    if pos < 0 || pos + 1 >= p.len() {
        None
    } else if p[pos] >= 192 {
        match labels_at(p, (p[pos] - 192) * 256 + p[pos + 1]) {
            Some((labels, end)) => Some(
                (crate::text::joined(label_texts(labels), "."@), pos + 2),
            ),
            None => None,
        }
    } else {
        match labels_at(p, pos) {
            Some((labels, end)) => Some((crate::text::joined(label_texts(labels), "."@), end)),
            None => None,
        }
    }
}

/// The record at a place of a packet, and where it ends.
pub open spec fn record_at(p: Seq<u8>, pos: int) -> Option<(Record, int)> {
    match name_at(p, pos) {
        None => None,
        Some((owner, at)) => if at + 10 > p.len() || at + 10 + read16(p, at + 8) > p.len() {
            None
        } else {
            let end = at + 10 + read16(p, at + 8);
            Some(
                (
                    Record {
                        owner,
                        kind: read16(p, at),
                        class: read16(p, at + 2),
                        ttl: read32(p, at + 4),
                        data: p.subrange(at + 10, end),
                    },
                    end,
                ),
            )
        },
    }
}

/// So many records from a place on, and where they end.
pub open spec fn records_at(p: Seq<u8>, pos: int, n: nat) -> Option<(Seq<Record>, int)>
    decreases n,
{
    if n == 0 {
        Some((Seq::empty(), pos))
    } else {
        match records_at(p, pos, (n - 1) as nat) {
            None => None,
            Some((before, at)) => match record_at(p, at) {
                None => None,
                Some((r, end)) => Some((before.push(r), end)),
            },
        }
    }
}

/// The answers of a packet: as many records as its header says, behind its
/// question, and nothing after them.
pub open spec fn answers_in(p: Seq<u8>) -> Option<Seq<Record>> {
    match name_at(p, 12) {
        None => None,
        Some((name, end)) => match records_at(p, end + 4, read16(p, 6) as nat) {
            None => None,
            Some((records, after)) => if after == p.len() {
                Some(records)
            } else {
                None
            },
        },
    }
}

/// The octets of the addresses that a question of this type asks for, in order.
pub open spec fn asked_for(qtype: u16, ips: Seq<IpAddr>) -> Seq<Seq<u8>>
    decreases ips.len(),
{
    if ips.len() == 0 {
        Seq::empty()
    } else {
        let before = asked_for(qtype, ips.drop_last());
        match ips.last() {
            IpAddr::V4(a) => if qtype == 1 {
                before.push(a@)
            } else {
                before
            },
            IpAddr::V6(a) => if qtype == 28 {
                before.push(a@)
            } else {
                before
            },
        }
    }
}

pub open spec fn octets(ip: IpAddr) -> Seq<u8> {
    match ip {
        IpAddr::V4(a) => a@,
        IpAddr::V6(a) => a@,
    }
}

proof fn lemma_asked_for(qtype: u16, ips: Seq<IpAddr>)
    ensures
        asked_for(qtype, ips) == matching(qtype, ips).map_values(|ip: IpAddr| octets(ip)),
    decreases ips.len(),
{
    reveal(Seq::filter);
    if ips.len() == 0 {
        assert(matching(qtype, ips) =~= Seq::empty());
        assert(asked_for(qtype, ips) =~= matching(qtype, ips).map_values(|ip: IpAddr| octets(ip)));
    } else {
        lemma_asked_for(qtype, ips.drop_last());
        let before = matching(qtype, ips.drop_last());
        if answers(qtype, ips.last()) {
            assert(matching(qtype, ips) =~= before.push(ips.last()));
        } else {
            assert(matching(qtype, ips) =~= before);
        }
        assert(asked_for(qtype, ips) =~= matching(qtype, ips).map_values(|ip: IpAddr| octets(ip)));
    }
}

proof fn lemma_read16(n: u16)
    ensures
        be16(n).len() == 2,
        read16(be16(n), 0) == n,
{
}

proof fn lemma_read32(n: u32)
    ensures
        be32(n).len() == 4,
        read32(be32(n), 0) == n,
{
}

proof fn lemma_record(p: Seq<u8>, pos: int, q: QuestionView, ip: IpAddr, ttl: u32)
    requires
        0 <= pos,
        pos + answer_bytes(ip, ttl).len() <= p.len(),
        p.subrange(pos, pos + answer_bytes(ip, ttl).len()) == answer_bytes(ip, ttl),
        answers(q.qtype, ip),
        name_at(p, 12) matches Some((name, _)) && name == q.name,
        12 < p.len() && p[12] < 64,
    ensures
        record_at(p, pos) == Some(
            (
                Record {
                    owner: q.name,
                    kind: q.qtype as int,
                    class: 1,
                    ttl: ttl as int,
                    data: octets(ip),
                },
                pos + answer_bytes(ip, ttl).len(),
            ),
        ),
{
    let b = answer_bytes(ip, ttl);
    let kind = match ip {
        IpAddr::V4(_) => QTYPE_A,
        IpAddr::V6(_) => QTYPE_AAAA,
    };
    let size: u16 = match ip {
        IpAddr::V4(_) => 4,
        IpAddr::V6(_) => 16,
    };
    lemma_read16(kind);
    lemma_read16(1);
    lemma_read16(size);
    lemma_read32(ttl);
    assert(b =~= seq![0xC0u8, 0x0C] + be16(kind) + be16(1) + be32(ttl) + be16(size) + octets(ip));
    assert forall|k: int| 0 <= k < b.len() implies p[pos + k] == #[trigger] b[k] by {
        assert(p.subrange(pos, pos + b.len())[k] == p[pos + k]);
    }
    assert(b[0] == 0xC0 && b[1] == 0x0C);
    assert(b[2] == be16(kind)[0] && b[3] == be16(kind)[1]);
    assert(b[4] == be16(1)[0] && b[5] == be16(1)[1]);
    assert(b[6] == be32(ttl)[0] && b[7] == be32(ttl)[1] && b[8] == be32(ttl)[2] && b[9] == be32(
        ttl,
    )[3]);
    assert(b[10] == be16(size)[0] && b[11] == be16(size)[1]);
    assert(p[pos + 2] == b[2] && p[pos + 3] == b[3] && p[pos + 4] == b[4] && p[pos + 5] == b[5]);
    assert(p[pos + 6] == b[6] && p[pos + 7] == b[7] && p[pos + 8] == b[8] && p[pos + 9] == b[9]);
    assert(p[pos + 10] == b[10] && p[pos + 11] == b[11]);
    assert(p.subrange(pos + 12, pos + b.len()) =~= octets(ip)) by {
        assert forall|k: int| 0 <= k < octets(ip).len() implies #[trigger] p.subrange(
            pos + 12,
            pos + b.len(),
        )[k] == octets(ip)[k] by {
            assert(p[pos + (12 + k)] == b[12 + k]);
        }
    }
}

proof fn lemma_records(
    p: Seq<u8>,
    pos: int,
    q: QuestionView,
    found: Seq<IpAddr>,
    ttl: u32,
)
    requires
        0 <= pos,
        pos + answers_bytes(found, ttl).len() <= p.len(),
        p.subrange(pos, pos + answers_bytes(found, ttl).len()) == answers_bytes(found, ttl),
        forall|i: int| 0 <= i < found.len() ==> answers(q.qtype, #[trigger] found[i]),
        name_at(p, 12) matches Some((name, _)) && name == q.name,
        12 < p.len() && p[12] < 64,
    ensures
        records_at(p, pos, found.len()) == Some(
            (
                found.map_values(
                    |ip: IpAddr|
                        Record {
                            owner: q.name,
                            kind: q.qtype as int,
                            class: 1,
                            ttl: ttl as int,
                            data: octets(ip),
                        },
                ),
                pos + answers_bytes(found, ttl).len(),
            ),
        ),
    decreases found.len(),
{
    let told = |ip: IpAddr|
        Record {
            owner: q.name,
            kind: q.qtype as int,
            class: 1,
            ttl: ttl as int,
            data: octets(ip),
        };
    if found.len() == 0 {
        assert(found.map_values(told) =~= Seq::empty());
    } else {
        let init = found.drop_last();
        let all = answers_bytes(found, ttl);
        let head = answers_bytes(init, ttl);
        let tail = answer_bytes(found.last(), ttl);
        assert(all == head + tail);
        assert(p.subrange(pos, pos + head.len()) =~= head) by {
            assert forall|k: int| 0 <= k < head.len() implies #[trigger] p.subrange(
                pos,
                pos + head.len(),
            )[k] == head[k] by {
                assert(p.subrange(pos, pos + all.len())[k] == all[k]);
            }
        }
        let at = pos + head.len();
        assert(p.subrange(at, at + tail.len()) =~= tail) by {
            assert forall|k: int| 0 <= k < tail.len() implies #[trigger] p.subrange(
                at,
                at + tail.len(),
            )[k] == tail[k] by {
                assert(p.subrange(pos, pos + all.len())[head.len() + k] == all[head.len() + k]);
            }
        }
        assert forall|i: int| 0 <= i < init.len() implies answers(q.qtype, #[trigger] init[i]) by {
            assert(init[i] == found[i]);
        }
        assert(answers(q.qtype, found[found.len() - 1]));
        lemma_records(p, pos, q, init, ttl);
        lemma_record(p, at, q, found.last(), ttl);
        assert(found.map_values(told) =~= init.map_values(told).push(told(found.last())));
    }
}

/// A response is read as what it is meant to say: to the question of its id, no
/// error, and for each address of the asked type, in order, a record of the
/// question's name and type, the Internet class, the time to live, and exactly
/// that address.
pub proof fn a_response_says_the_addresses(id: u16, q: QuestionView, ips: Seq<IpAddr>, ttl: u32)
    requires
        fits_the_wire(q.name),
        asked_for(q.qtype, ips).len() < 0x1_0000,
    ensures
        ({
            let p = response_bytes(id, q, ips, ttl);
            &&& read16(p, 0) == id
            &&& read16(p, 2) == 0x8180
            &&& read16(p, 4) == 1
            &&& read16(p, 6) == asked_for(q.qtype, ips).len()
            &&& read16(p, 8) == 0 && read16(p, 10) == 0
            &&& answers_in(p) == Some(
                asked_for(q.qtype, ips).map_values(
                    |data: Seq<u8>|
                        Record {
                            owner: q.name,
                            kind: q.qtype as int,
                            class: 1,
                            ttl: ttl as int,
                            data,
                        },
                ),
            )
        }),
{
    let found = matching(q.qtype, ips);
    lemma_asked_for(q.qtype, ips);
    let h = header_bytes(id, 0, (found.len() % 0x1_0000) as u16);
    let body = answers_bytes(found, ttl);
    let p = response_bytes(id, q, ips, ttl);
    let qb = question_bytes(q);
    lemma_header(id, 0, found.len() as u16);
    assert forall|k: int| 0 <= k < 12 implies #[trigger] p[k] == h[k] by {}
    lemma_question_at(h, q, body);
    let pos = 12 + qb.len();
    assert(p.subrange(pos as int, (pos + body.len()) as int) =~= body);
    assert forall|i: int| 0 <= i < found.len() implies answers(q.qtype, #[trigger] found[i]) by {
        ips.lemma_filter_pred(|ip: IpAddr| answers(q.qtype, ip), i);
    }
    lemma_records(p, pos as int, q, found, ttl);
    assert(found.map_values(
        |ip: IpAddr|
            Record {
                owner: q.name,
                kind: q.qtype as int,
                class: 1,
                ttl: ttl as int,
                data: octets(ip),
            },
    ) =~= asked_for(q.qtype, ips).map_values(
        |data: Seq<u8>|
            Record { owner: q.name, kind: q.qtype as int, class: 1, ttl: ttl as int, data },
    ));
}

proof fn lemma_header(id: u16, rcode: u16, count: u16)
    requires
        rcode < 16,
    ensures
        ({
            let h = header_bytes(id, rcode, count);
            &&& h.len() == 12
            &&& read16(h, 0) == id
            &&& read16(h, 2) == 0x8180 + rcode
            &&& read16(h, 4) == 1
            &&& read16(h, 6) == count
            &&& read16(h, 8) == 0 && read16(h, 10) == 0
        }),
{
    lemma_read16(id);
    lemma_read16((RESPONSE_FLAGS + rcode) as u16);
    lemma_read16(1);
    lemma_read16(count);
    lemma_read16(0);
    let h = header_bytes(id, rcode, count);
    assert(h[0] == be16(id)[0] && h[1] == be16(id)[1]);
    assert(h[2] == be16((RESPONSE_FLAGS + rcode) as u16)[0] && h[3] == be16(
        (RESPONSE_FLAGS + rcode) as u16,
    )[1]);
    assert(h[4] == be16(1)[0] && h[5] == be16(1)[1]);
    assert(h[6] == be16(count)[0] && h[7] == be16(count)[1]);
    assert(h[8] == be16(0)[0] && h[9] == be16(0)[1]);
    assert(h[10] == be16(0)[0] && h[11] == be16(0)[1]);
}

proof fn lemma_question_at(h: Seq<u8>, q: QuestionView, rest: Seq<u8>)
    requires
        h.len() == 12,
        fits_the_wire(q.name),
    ensures
        ({
            let p = h + question_bytes(q) + rest;
            &&& name_at(p, 12) == Some((q.name, 12 + question_bytes(q).len() - 4))
            &&& 12 < p.len() && p[12] < 64
        }),
{
    let h1 = h.update(5, 1u8);
    let p = h + question_bytes(q) + rest;
    let p1 = h1 + question_bytes(q) + rest;
    question_reads_back(h1, q, rest);
    lemma_same_labels(p, p1, 12);
    lemma_name_end(h, q, rest);
}

proof fn lemma_same_labels(p: Seq<u8>, r: Seq<u8>, pos: int)
    requires
        p.len() == r.len(),
        0 <= pos,
        forall|k: int| pos <= k < p.len() ==> p[k] == r[k],
    ensures
        labels_at(p, pos) == labels_at(r, pos),
    decreases p.len() - pos,
{
    if pos < p.len() && p[pos] != 0 && p[pos] < 64 && pos + 1 + p[pos] <= p.len() {
        lemma_same_labels(p, r, pos + 1 + p[pos]);
        assert(p.subrange(pos + 1, pos + 1 + p[pos]) =~= r.subrange(pos + 1, pos + 1 + p[pos]));
    }
}

proof fn lemma_name_end(h: Seq<u8>, q: QuestionView, rest: Seq<u8>)
    requires
        h.len() == 12,
        fits_the_wire(q.name),
    ensures
        ({
            let p = h + question_bytes(q) + rest;
            &&& labels_at(p, 12) matches Some((_, end)) && end == 12 + question_bytes(q).len() - 4
            &&& 12 < p.len() && p[12] < 64
        }),
{
    let p = h + question_bytes(q) + rest;
    let labels = crate::text::split_on(q.name, '.');
    let written = if q.name.len() == 0 {
        Seq::<Seq<char>>::empty()
    } else {
        labels
    };
    if q.name.len() == 0 {
        assert(labels.len() == 1 && labels.last().len() == 0);
        assert(labels_bytes(labels) == labels_bytes(labels.drop_last()));
        assert(labels.drop_last() =~= Seq::empty());
    }
    let lb = labels_bytes(written);
    let end = 12int + lb.len();
    assert(p.subrange(12, end) =~= lb);
    assert(p[end] == name_bytes(q.name)[lb.len() as int]);
    assert(labels_at(p, end) == Some((Seq::<Seq<u8>>::empty(), end + 1)));
    lemma_labels_parse(p, 12, written);
    lemma_read16(q.qtype);
    lemma_read16(q.qclass);
}

/// A failure is read as one: of the question that it answers, with the code for
/// a name that does not exist or for a server that failed, and no answers.
pub proof fn a_failure_says_so(id: u16, q: QuestionView, nxdomain: bool)
    requires
        fits_the_wire(q.name),
    ensures
        ({
            let p = error_bytes(id, q, nxdomain);
            &&& read16(p, 0) == id
            &&& read16(p, 2) == 0x8180 + (if nxdomain {
                3
            } else {
                2int
            })
            &&& read16(p, 4) == 1
            &&& read16(p, 6) == 0
            &&& answers_in(p) == Some(Seq::<Record>::empty())
            &&& query_of(p) == Some((id, q))
        }),
{
    let code = if nxdomain {
        RCODE_NXDOMAIN
    } else {
        RCODE_SERVFAIL
    };
    let h = header_bytes(id, code, 0);
    let p = error_bytes(id, q, nxdomain);
    lemma_header(id, code, 0);
    lemma_question_at(h, q, Seq::empty());
    assert(h + question_bytes(q) + Seq::<u8>::empty() =~= p);
    assert forall|k: int| 0 <= k < 12 implies #[trigger] p[k] == h[k] by {}
    crate::bytes::be16_reads_back(id);
    question_reads_back(h, q, Seq::empty());
}

/// On the wire a name is its labels, each behind its length in bytes, and a
/// zero.
pub proof fn a_name_goes_label_by_label(label: Seq<char>, rest: Seq<char>)
    requires
        label_fits(label),
        !label.contains('.'),
    ensures
        ({
            let b = vstd::utf8::encode_utf8(label);
            &&& name_bytes(label) == seq![b.len() as u8] + b + seq![0u8]
            &&& name_bytes(label.push('.') + rest) == seq![b.len() as u8] + b + name_bytes(rest)
        }),
        name_bytes(Seq::empty()) == seq![0u8],
{
    let b = vstd::utf8::encode_utf8(label);
    let none = Seq::<char>::empty();
    assert(crate::text::split_on(none, '.') =~= seq![none]);
    assert(seq![none].drop_last() =~= Seq::empty());
    assert(labels_bytes(seq![none]) == labels_bytes(Seq::<Seq<char>>::empty()));
    assert(name_bytes(none) =~= seq![0u8]);
    crate::text::a_piece_splits_off(label, none, '.');
    assert(seq![label].drop_last() =~= Seq::empty());
    assert(label_bytes(label) =~= seq![b.len() as u8] + b);
    assert(labels_bytes(seq![label]) =~= label_bytes(label));
    assert(name_bytes(label) =~= seq![b.len() as u8] + b + seq![0u8]);
    crate::text::a_piece_splits_off(label, rest, '.');
    lemma_labels_front(label, crate::text::split_on(rest, '.'));
    assert(name_bytes(label.push('.') + rest) =~= seq![b.len() as u8] + b + name_bytes(rest));
}

proof fn lemma_labels_front(label: Seq<char>, labels: Seq<Seq<char>>)
    requires
        label.len() > 0,
    ensures
        labels_bytes(seq![label] + labels) == label_bytes(label) + labels_bytes(labels),
    decreases labels.len(),
{
    let all = seq![label] + labels;
    if labels.len() == 0 {
        assert(all =~= seq![label]);
        assert(all.drop_last() =~= Seq::empty());
        assert(labels_bytes(Seq::<Seq<char>>::empty()) =~= Seq::empty());
        assert(labels =~= Seq::empty());
        assert(all.last() == label);
        assert(labels_bytes(all) =~= label_bytes(label) + labels_bytes(labels));
    } else {
        lemma_labels_front(label, labels.drop_last());
        assert(all.drop_last() =~= seq![label] + labels.drop_last());
        assert(all.last() == labels.last());
        assert(labels_bytes(all) =~= label_bytes(label) + labels_bytes(labels));
    }
}

/// No question is read from a packet without a whole header, without a question
/// in its count, that ends before the question does, or whose name does not
/// begin with a length that a label may have.
pub proof fn a_broken_query_is_refused(p: Seq<u8>)
    ensures
        p.len() < 17 ==> query_of(p) is None,
        p.len() >= 12 && read16(p, 4) == 0 ==> query_of(p) is None,
        p.len() > 12 && p[12] >= 64 ==> query_of(p) is None,
        p.len() > 12 && 13 + p[12] > p.len() ==> query_of(p) is None,
        query_of(p) matches Some((id, _)) ==> id == read16(p, 0),
{
    if p.len() >= 12 {
        lemma_labels_end(p, 12);
    }
}

proof fn lemma_labels_end(p: Seq<u8>, pos: int)
    requires
        0 <= pos,
    ensures
        labels_at(p, pos) matches Some((labels, end)) ==> pos < end <= p.len(),
    decreases p.len() - pos,
{
    if pos < p.len() && p[pos] != 0 && p[pos] < 64 && pos + 1 + p[pos] <= p.len() {
        lemma_labels_end(p, pos + 1 + p[pos]);
    }
}

} // verus!

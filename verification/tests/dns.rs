use nebula::dns::{build_error, build_response, encode_name, parse_query, IpAddr, Question, QTYPE_A, QTYPE_AAAA};

fn query(name: &str, qtype: u16) -> Vec<u8> {
    let mut p = vec![0xAB, 0xCD, 0x01, 0x00, 0x00, 0x01, 0, 0, 0, 0, 0, 0];
    encode_name(name, &mut p);
    p.extend_from_slice(&qtype.to_be_bytes());
    p.extend_from_slice(&1u16.to_be_bytes());
    p
}

#[test]
fn parses_query() {
    let p = query("registry-1.docker.io", QTYPE_A);
    let (id, q) = parse_query(&p).unwrap();
    assert_eq!(id, 0xABCD);
    assert_eq!(q.name, "registry-1.docker.io");
    assert_eq!(q.qtype, QTYPE_A);
}

#[test]
fn builds_a_response_parseable_by_us() {
    let p = query("example.com", QTYPE_A);
    let (id, q) = parse_query(&p).unwrap();
    let resp = build_response(id, &q, &[IpAddr::V4([93, 184, 216, 34])], 60);
    assert_eq!(&resp[0..2], &id.to_be_bytes());
    assert_eq!(resp[2] & 0x80, 0x80); // QR set
    assert_eq!(u16::from_be_bytes([resp[6], resp[7]]), 1); // ANCOUNT
    assert_eq!(&resp[resp.len() - 4..], &[93, 184, 216, 34]);
}

#[test]
fn aaaa_question_filters_v4_answers() {
    let p = query("example.com", QTYPE_AAAA);
    let (id, q) = parse_query(&p).unwrap();
    let resp = build_response(id, &q, &[IpAddr::V4([93, 184, 216, 34])], 60);
    assert_eq!(u16::from_be_bytes([resp[6], resp[7]]), 0); // no answers
    assert_eq!(resp[3] & 0x0F, 0); // NOERROR
}

#[test]
fn error_response_sets_rcode() {
    let p = query("nope.invalid", QTYPE_A);
    let (id, q) = parse_query(&p).unwrap();
    let resp = build_error(id, &q, true);
    assert_eq!(resp[3] & 0x0F, 3); // NXDOMAIN
}

#[test]
fn rejects_garbage() {
    assert!(parse_query(&[0u8; 5]).is_none());
    assert!(parse_query(&[]).is_none());
}

#[test]
fn other_errors_are_server_failures() {
    let (id, q) = parse_query(&query("x.y", QTYPE_A)).unwrap();
    let resp = build_error(id, &q, false);
    assert_eq!(resp[3] & 0x0F, 2);
    assert_eq!(u16::from_be_bytes([resp[6], resp[7]]), 0);
}

#[test]
fn a_question_survives_encoding_and_parsing() {
    let (id, q) = parse_query(&query("a.bc.def", QTYPE_AAAA)).unwrap();
    let resp = build_response(id, &q, &[], 5);
    // The question section repeats the query's own.
    assert_eq!(&resp[12..], &query("a.bc.def", QTYPE_AAAA)[12..]);
}

#[test]
fn v6_answers_reach_v6_questions() {
    let (id, q) = parse_query(&query("example.com", QTYPE_AAAA)).unwrap();
    let mut six = [0u8; 16];
    six[15] = 1;
    let resp = build_response(id, &q, &[IpAddr::V4([1, 2, 3, 4]), IpAddr::V6(six)], 60);
    assert_eq!(u16::from_be_bytes([resp[6], resp[7]]), 1);
    assert_eq!(&resp[resp.len() - 16..], &six);
}

#[test]
fn names_are_length_prefixed_labels() {
    let mut out = Vec::new();
    encode_name("a.bc", &mut out);
    assert_eq!(out, vec![1, b'a', 2, b'b', b'c', 0]);
}

#[test]
fn answers_carry_the_ttl() {
    let q = Question { name: "a".to_string(), qtype: QTYPE_A, qclass: 1 };
    let resp = build_response(1, &q, &[IpAddr::V4([1, 2, 3, 4])], 0x0102_0304);
    let n = resp.len();
    assert_eq!(&resp[n - 10..n - 6], &[1, 2, 3, 4]);
    assert_eq!(&resp[n - 6..n - 4], &[0, 4]);
}

use nebula::double::Double;
use nebula::http::{engine_body, get_request, parse_response, read_chunks, ChunkError, EngineError, ResponseError};
use nebula::memory::{GuestMem, Stats};
use serde_json::Value;

#[test]
fn parses_content_length_body() {
    let raw = b"HTTP/1.1 200 OK\r\nContent-Length: 2\r\n\r\nhi";
    assert_eq!(parse_response(raw).unwrap(), "hi");
}

#[test]
fn parses_chunked_body() {
    let raw = b"HTTP/1.1 200 OK\r\nTransfer-Encoding: chunked\r\n\r\n3\r\nfoo\r\n2\r\nba\r\n0\r\n\r\n";
    assert_eq!(parse_response(raw).unwrap(), "fooba");
}

#[test]
fn non_200_is_error() {
    let raw = b"HTTP/1.1 404 Not Found\r\n\r\nnope";
    assert!(parse_response(raw).is_err());
    assert!(matches!(parse_response(raw), Err(ResponseError::Status(404))));
}

#[test]
fn stats_parse_live_shape() {
    let j = r#"{"balloonTargetMib":3113,"guest":{"available_kib":1151892,"cached_kib":659696,"free_kib":674524,"psi_full_avg10":0.0,"psi_some_avg10":0.0,"total_kib":32808732},"hostFootprintMib":2659,"maxMib":32768}"#;
    let v: Value = serde_json::from_str(j).unwrap();
    let n = |v: &Value, key: &str| v[key].as_u64().unwrap();
    let psi = |key: &str| v["guest"][key].as_f64().map(|x| Double { bits: x.to_bits() });
    let s = Stats {
        balloon_target_mib: n(&v, "balloonTargetMib"),
        max_mib: n(&v, "maxMib"),
        host_footprint_mib: n(&v, "hostFootprintMib"),
        guest: Some(GuestMem {
            total_kib: n(&v["guest"], "total_kib"),
            available_kib: n(&v["guest"], "available_kib"),
            psi_some_avg10: psi("psi_some_avg10"),
            psi_full_avg10: psi("psi_full_avg10"),
        }),
    };
    assert_eq!(s.held_mib(), 32768 - 3113);
    assert!(s.guest_used_mib() > 0);
    assert_eq!(s.guest_used_mib(), (32808732 - 1151892) / 1024);
    assert_eq!(s.guest_avail_mib(), 1151892 / 1024);
    assert_eq!(f64::from_bits(s.psi_some().bits), 0.0);
    assert_eq!(s.host_footprint_mib, 2659);
}

#[test]
fn pressure_is_nought_without_a_guest() {
    let d = |x: f64| Some(Double { bits: x.to_bits() });
    let guest = |psi_some_avg10, psi_full_avg10| {
        Some(GuestMem { total_kib: 1, available_kib: 3, psi_some_avg10, psi_full_avg10 })
    };
    let with = |guest| Stats { balloon_target_mib: 5, max_mib: 4, host_footprint_mib: 0, guest };
    let psi = |s: &Stats| (f64::from_bits(s.psi_some().bits), f64::from_bits(s.psi_full().bits));
    assert_eq!(psi(&with(None)), (0.0, 0.0));
    assert_eq!(psi(&with(guest(None, d(7.5)))), (0.0, 7.5));
    assert_eq!(psi(&with(guest(d(10.005), None))), (10.005, 0.0));
    let s = with(guest(None, None));
    assert_eq!((s.held_mib(), s.guest_used_mib()), (0, 0));
}

#[test]
fn a_response_without_headers_end_is_refused() {
    assert!(matches!(parse_response(b"HTTP/1.1 200 OK\r\n"), Err(ResponseError::NoTerminator)));
    assert!(matches!(parse_response(b"what\r\n\r\n"), Err(ResponseError::BadStatusLine)));
}

#[test]
fn chunk_errors_are_told_apart() {
    assert!(matches!(read_chunks(b"3", true), Err(ChunkError::MissingSize)));
    assert!(matches!(read_chunks(b"zz\r\nfoo\r\n", true), Err(ChunkError::BadSize)));
    assert!(matches!(read_chunks(b"9\r\nfoo\r\n", true), Err(ChunkError::Truncated)));
    assert!(matches!(read_chunks(b"\xff\r\nfoo\r\n", true), Err(ChunkError::BadLine)));
    assert_eq!(read_chunks(b"a\r\n0123456789\r\n0\r\n\r\n", true).unwrap(), b"0123456789");
}

#[test]
fn response_errors_have_their_texts() {
    assert_eq!(ResponseError::Status(404).message("/x"), "GET /x: HTTP 404");
    for e in [ChunkError::MissingSize, ChunkError::BadLine, ChunkError::BadSize, ChunkError::Truncated] {
        let text = e.message();
        assert_eq!(ResponseError::Chunks(e).message("/x"), text);
    }
}

#[test]
fn the_engine_answers_bytes() {
    let raw = b"HTTP/1.1 200 OK\r\nTransfer-Encoding: chunked\r\n\r\n2\r\n\x00\xff\r\n0\r\n\r\n";
    assert_eq!(engine_body(raw).unwrap(), vec![0, 255]);
    assert!(matches!(engine_body(b"HTTP/1.1 500 no\r\n\r\n"), Err(EngineError::NotOk)));
    assert!(matches!(engine_body(b"HTTP"), Err(EngineError::NoTerminator)));
}

#[test]
fn requests_close_the_connection() {
    let r = get_request("localhost", "/v1/status");
    assert!(r.starts_with("GET /v1/status HTTP/1.1\r\nHost: localhost\r\n"), "{r}");
    assert!(r.ends_with("\r\n\r\n"));
}

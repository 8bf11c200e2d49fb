use nebula::dns::{parse_query, IpAddr, Question, QTYPE_A, QTYPE_AAAA};
use nebula::net::{
    answer, effective_bind, is_loopback, is_unspecified, list_containers, localhost, mapping, merge_ports,
    resolved, same_ip, wider, Answer, ContainerInfo, Mapping, NetConfig, NetState, PublishedPort,
};

/// An address from its text.
fn ip(s: &str) -> IpAddr {
    if s == "::1" {
        let mut b = [0u8; 16];
        b[15] = 1;
        return IpAddr::V6(b);
    }
    if s == "::" {
        return IpAddr::V6([0u8; 16]);
    }
    let parts: Vec<u8> = s.split('.').map(|p| p.parse().unwrap()).collect();
    IpAddr::V4([parts[0], parts[1], parts[2], parts[3]])
}

#[test]
fn loopback_publishes_stay_loopback_either_way() {
    for allow in [false, true] {
        assert_eq!(effective_bind(ip("127.0.0.1"), allow), localhost());
        // ::1 normalises to 127.0.0.1: the upstream dial is v4 anyway.
        assert_eq!(effective_bind(ip("::1"), allow), localhost());
    }
    assert_eq!(localhost(), ip("127.0.0.1"));
}

#[test]
fn wide_publishes_are_clamped_until_opted_in() {
    assert_eq!(effective_bind(ip("0.0.0.0"), false), localhost());
    assert_eq!(effective_bind(ip("192.168.1.5"), false), localhost());
    // ...and are honoured once the instance opts in.
    assert_eq!(effective_bind(ip("0.0.0.0"), true), ip("0.0.0.0"));
    assert_eq!(effective_bind(ip("192.168.1.5"), true), ip("192.168.1.5"));
}

#[test]
fn widest_binding_wins_across_mappings() {
    assert!(wider(&ip("0.0.0.0"), &ip("127.0.0.1")));
    assert!(wider(&ip("192.168.1.5"), &ip("127.0.0.1")));
    assert!(wider(&ip("0.0.0.0"), &ip("192.168.1.5")));
    assert!(!wider(&ip("127.0.0.1"), &ip("0.0.0.0")));
    assert!(!wider(&ip("0.0.0.0"), &ip("0.0.0.0")));
    // One `-p 8080:80` reports both wildcards; take the v4 one.
    assert!(wider(&ip("0.0.0.0"), &ip("::")));
    assert!(!wider(&ip("::"), &ip("0.0.0.0")));
}

#[test]
fn a_bare_publish_parses_as_the_wildcard() {
    // Docker omits IP for `-p 8080:80` in some versions; absent must not
    // silently become loopback, or opting in would change nothing.
    let host_ip = mapping(8080, None).host_ip;
    assert!(is_unspecified(&host_ip));
    assert!(!is_loopback(&host_ip));
}

#[test]
fn parses_container_json_shape() {
    let body = br#"[{"Names":["/web"],"Ports":[{"Type":"tcp","PrivatePort":80,"PublicPort":8080}]}]"#;
    let parsed = list_containers(body).unwrap();
    let c = &parsed[0];
    assert_eq!(c.names[0], "web");
    assert_eq!(c.ports[0].port, 8080);
    assert_eq!(parsed.len(), 1);
    assert_eq!(c.ports[0].ip, "");
}

#[test]
fn only_published_tcp_ports_are_listed() {
    let body = br#"[{"Names":["/a","/b"],"Ports":[
        {"Type":"udp","PrivatePort":53,"PublicPort":53},
        {"Type":"tcp","PrivatePort":81},
        {"IP":"0.0.0.0","Type":"tcp","PrivatePort":80,"PublicPort":80}]},{}]"#;
    let parsed = list_containers(body).unwrap();
    assert_eq!(parsed[0].names, vec!["a", "b"]);
    assert_eq!(parsed[0].ports.len(), 1);
    assert_eq!(parsed[0].ports[0].ip, "0.0.0.0");
    assert!(list_containers(b"nonsense").is_err());
}

#[test]
fn mappings_of_one_port_merge() {
    let maps: Vec<Mapping> = vec![
        mapping(80, Some(ip("127.0.0.1"))),
        mapping(80, Some(ip("192.168.1.5"))),
        mapping(81, Some(ip("127.0.0.1"))),
    ];
    let ports = merge_ports(&maps);
    assert_eq!(ports.len(), 2);
    assert_eq!(ports[0].port, 80);
    assert!(same_ip(&ports[0].host_ip, &ip("192.168.1.5")));
    assert!(same_ip(&ports[1].host_ip, &ip("127.0.0.1")));
}

fn published(port: u16, host: &str) -> PublishedPort {
    PublishedPort { port, guest_loopback: is_loopback(&ip(host)), host_ip: ip(host) }
}

fn cfg(allow: bool) -> NetConfig {
    NetConfig { k8s_port: 6443, allow_public_publish: allow, macos: false }
}

#[test]
fn forwards_follow_the_published_ports() {
    let mut s = NetState::new();
    let guest = Some([10, 0, 0, 2]);
    let web = ContainerInfo { names: vec!["web".into()], tcp_ports: vec![published(8080, "0.0.0.0")] };
    let plan = s.tick(guest, &Some(vec![web]), cfg(false));
    assert!(plan.stop.is_empty());
    let ports: Vec<u16> = plan.start.iter().map(|f| f.forward.port).collect();
    assert!(ports.contains(&8080) && ports.contains(&6443), "{ports:?}");
    // Not opted in: the bind stays on this host.
    assert!(plan.start.iter().all(|f| f.forward.bind == localhost()));
    for f in plan.start {
        s.started(f.forward);
    }
    // Unchanged, nothing moves.
    let web = ContainerInfo { names: vec!["web".into()], tcp_ports: vec![published(8080, "0.0.0.0")] };
    let plan = s.tick(guest, &Some(vec![web]), cfg(false));
    assert!(plan.stop.is_empty() && plan.start.is_empty(), "{plan:?}");
    // The container is gone: its forward stops, the other stays.
    let plan = s.tick(guest, &Some(vec![]), cfg(false));
    assert_eq!(plan.stop.len(), 1);
    assert_eq!(plan.stop[0].port, 8080);
    assert!(plan.start.is_empty());
}

#[test]
fn container_names_are_answered_in_the_zone() {
    let q = Question { name: "web.nebula.local".into(), qtype: QTYPE_A, qclass: 1 };
    let names = vec!["web".to_string()];
    match answer(7, &q, Some([10, 0, 0, 2]), &names, "nebula.local") {
        Answer::Packet(p) => {
            assert_eq!(u16::from_be_bytes([p[6], p[7]]), 1);
            assert_eq!(&p[p.len() - 4..], &[10, 0, 0, 2]);
        }
        Answer::Resolve(n) => panic!("asked the host for {n}"),
    }
    let q = Question { name: "db.nebula.local".into(), qtype: QTYPE_A, qclass: 1 };
    match answer(7, &q, Some([10, 0, 0, 2]), &names, "nebula.local") {
        Answer::Packet(p) => assert_eq!(p[3] & 0x0F, 3),
        Answer::Resolve(n) => panic!("asked the host for {n}"),
    }
    let q = Question { name: "example.com".into(), qtype: QTYPE_AAAA, qclass: 1 };
    assert!(matches!(
        answer(7, &q, None, &names, "nebula.local"),
        Answer::Resolve(n) if n == "example.com"
    ));
}

#[test]
fn what_the_host_finds_is_passed_on() {
    let q = Question { name: "example.com".into(), qtype: QTYPE_A, qclass: 1 };
    let p = resolved(7, &q, &Some(vec![ip("93.184.216.34")]));
    assert_eq!(&p[0..2], &[0, 7]);
    assert_eq!(u16::from_be_bytes([p[6], p[7]]), 1);
    let p = resolved(7, &q, &None);
    assert_ne!(p[3] & 0x0F, 0);
    assert_eq!(parse_query(&p), Some((7, q)));
}

#[test]
fn one_wider_mapping_makes_a_port_reachable() {
    let guest = Some([10, 0, 0, 2]);
    let mac = NetConfig { k8s_port: 6443, allow_public_publish: false, macos: true };
    let both = ContainerInfo {
        names: vec!["web".into()],
        tcp_ports: vec![published(8080, "127.0.0.1"), published(9090, "127.0.0.1")],
    };
    let other = ContainerInfo { names: vec!["api".into()], tcp_ports: vec![published(8080, "0.0.0.0")] };
    let plan = NetState::new().tick(guest, &Some(vec![both, other]), mac);
    let of = |p: u16| plan.start.iter().find(|f| f.forward.port == p).unwrap();
    assert!(!of(8080).forward.guest_loopback);
    assert_eq!(of(8080).dial, guest);
    assert!(of(9090).forward.guest_loopback);
    assert_eq!(of(9090).dial, None);
    assert!(!of(6443).forward.guest_loopback);
}

use nebula::backend::VmState;
use nebula::config::{Config, Effective, ShareEntry};
use nebula::engine::{
    boot, hex_encode, kept_mac, stop_step, vessel_cmdline, vessel_shares, wait_agent, AgentWait, BootFacts,
    StopStep,
};
use nebula::paths::Paths;
use nebula::ports::PortPlan;
use nebula::spec::ShareSpec;

fn hex_decode(s: &str) -> String {
    let bytes: Vec<u8> = (0..s.len())
        .step_by(2)
        .map(|i| u8::from_str_radix(&s[i..i + 2], 16).unwrap())
        .collect();
    String::from_utf8(bytes).unwrap()
}

#[test]
fn hex_encode_is_lowercase_bytes() {
    assert_eq!(hex_encode(b"/tmp/x"), "2f746d702f78");
    assert_eq!(hex_decode(&hex_encode(b"/Volumes/a b")), "/Volumes/a b");
}

fn home() -> Option<String> {
    Some("/Users/x".to_string())
}

#[test]
fn cmdline_encodes_extra_shares_only() {
    let shares = vec![
        ShareSpec {
            tag: "home".into(),
            host_path: "/Users/x".into(),
            read_only: false,
        },
        ShareSpec {
            tag: "share0".into(),
            host_path: "/Volumes/a b".into(),
            read_only: false,
        },
    ];
    let cl = vessel_cmdline(&test_plan(), &home(), &shares);
    // home is handled via NEBULA_HOME, never re-encoded as an extra share.
    assert!(!cl.contains("home="));
    let word = cl
        .split_whitespace()
        .find(|w| w.starts_with("NEBULA_SHARES="))
        .expect("NEBULA_SHARES present");
    // One whitespace-free cmdline word, even though the path has a space.
    assert!(!word.contains(' '));
    let hex = word.trim_start_matches("NEBULA_SHARES=share0=");
    assert_eq!(hex_decode(hex), "/Volumes/a b");
}

#[test]
fn cmdline_omits_shares_when_only_home() {
    let shares = vec![ShareSpec {
        tag: "home".into(),
        host_path: "/Users/x".into(),
        read_only: false,
    }];
    assert!(!vessel_cmdline(&test_plan(), &home(), &shares).contains("NEBULA_SHARES="));
}

fn test_plan() -> PortPlan {
    PortPlan::resolve(&Config::default(), &None)
}

#[test]
fn cmdline_carries_the_planned_dns_port() {
    // Not the configured port: `port_conflict = "auto"` can move the resolver,
    // and the guest must be told where it actually landed.
    let plan = PortPlan {
        dns_port: 42099,
        ..PortPlan::resolve(&Config::default(), &None)
    };
    assert!(vessel_cmdline(&plan, &home(), &vec![]).contains("NEBULA_DNS_PORT=42099"));
}

#[test]
fn read_only_shares_are_marked() {
    let shares = vec![ShareSpec { tag: "share0".into(), host_path: "/a".into(), read_only: true }];
    let cl = vessel_cmdline(&test_plan(), &None, &shares);
    assert!(cl.ends_with(" NEBULA_SHARES=share0=2f61:ro"), "{cl}");
}

#[test]
fn shares_that_do_not_exist_are_left_out() {
    let entries = vec![
        ShareEntry { path: "/gone".into(), read_only: false },
        ShareEntry { path: "/data".into(), read_only: true },
    ];
    let r = vessel_shares(&home(), &entries, &vec![false, true]);
    let tags: Vec<&str> = r.iter().map(|s| s.tag.as_str()).collect();
    assert_eq!(tags.first(), Some(&"home"));
    assert_eq!(r.len(), 2);
    assert_eq!(r[1].host_path, "/data");
    assert!(r[1].read_only);
}

fn facts() -> BootFacts {
    BootFacts {
        macos: false,
        windows: false,
        kernel_exists: true,
        rootfs_exists: true,
        data_len: None,
        home: home(),
        home_is_dir: true,
        share_is_dir: vec![],
        mac: Some("02:00:00:00:00:01".into()),
        tcpproxy_port: 5000,
    }
}

#[test]
fn the_data_disk_is_created_once() {
    let paths = Paths { root: "/n".into() };
    let eff = || Effective { mem_mib: 4096, cpus: 2, data_disk_gib: 64 };
    let p = boot(&paths, &Config::default(), eff(), &test_plan(), &facts()).unwrap();
    assert_eq!(p.create_data, Some(64 * 1024 * 1024 * 1024));
    assert_eq!(p.spec.cpus, 2);
    assert_eq!(p.spec.mem_mib, 4096);
    let mut f = facts();
    f.data_len = Some(1);
    let p = boot(&paths, &Config::default(), eff(), &test_plan(), &f).unwrap();
    assert_eq!(p.create_data, None);
    let mut f = facts();
    f.kernel_exists = false;
    assert!(boot(&paths, &Config::default(), eff(), &test_plan(), &f).is_err());
    let mut f = facts();
    f.rootfs_exists = false;
    assert!(boot(&paths, &Config::default(), eff(), &test_plan(), &f).is_err());
}

#[test]
fn a_kept_address_is_trimmed() {
    assert_eq!(kept_mac(&Some("02:ab\n".into())).as_deref(), Some("02:ab"));
    assert_eq!(kept_mac(&None), None);
}

#[test]
fn stopping_asks_then_waits_then_forces() {
    assert!(matches!(stop_step(false, false, VmState::Running, 0), StopStep::AskAgent));
    assert!(matches!(stop_step(false, true, VmState::Stopped, 100), StopStep::Done));
    assert!(matches!(stop_step(false, true, VmState::Running, 100), StopStep::Wait));
    assert!(matches!(stop_step(false, true, VmState::Running, 10_000_000), StopStep::Force));
    assert!(matches!(stop_step(true, false, VmState::Running, 0), StopStep::Force));
}

#[test]
fn the_agent_is_waited_for() {
    assert!(matches!(wait_agent(true, 0, 10), AgentWait::Up));
    assert!(matches!(wait_agent(false, 0, 10), AgentWait::Wait));
    assert!(matches!(wait_agent(false, 11, 10), AgentWait::GiveUp));
}

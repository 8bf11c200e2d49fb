use nebula::api::DEFAULT_API_PORT;
use nebula::config::Config;
use nebula::ports::{
    binds, clear_bind, failing, free_near, holder_of, nebula_home_of, netstat_pid, peer_homes, port_owner,
    preflight, set_bind, shares_dns_zone, shell_quote, task_name, warn_shared_dns_zone, BindReport,
    ConflictPolicy, Holder, PortPlan, Probed, Proto, Setting, DEFAULT_DNS_ZONE, DEFAULT_K8S_PORT,
};
use nebula::proto::HOST_DNS_UDP_PORT;

fn cfg_from(toml_src: &str) -> Config {
    Config::load(&Some(toml_src.to_string())).unwrap()
}

#[test]
fn plan_uses_defaults() {
    let p = PortPlan::resolve(&Config::default(), &None);
    assert_eq!(p.api_port, DEFAULT_API_PORT);
    assert_eq!(p.dns_port, HOST_DNS_UDP_PORT);
    assert_eq!(p.k8s_port, DEFAULT_K8S_PORT);
    assert_eq!(p.dns_zone, DEFAULT_DNS_ZONE);
}

#[test]
fn plan_reads_config() {
    let p = PortPlan::resolve(
        &cfg_from("api_port = 7462\ndns_port = 42062\nk8s_port = 6462\ndns_zone = \"galaxy.local\"\n"),
        &None,
    );
    assert_eq!(p.api_port, 7462);
    assert_eq!(p.dns_port, 42062);
    assert_eq!(p.k8s_port, 6462);
    assert_eq!(p.dns_zone, "galaxy.local");
}

#[test]
fn api_port_zero_is_not_checked() {
    let plan = PortPlan::resolve(&cfg_from("api_port = 0\n"), &None);
    assert!(plan.checks().iter().all(|c| c.setting.name() != "api_port"));
}

#[test]
fn policy_parses() {
    assert_eq!(
        ConflictPolicy::resolve(&Config::default(), &None).unwrap(),
        ConflictPolicy::Fail
    );
    assert_eq!(
        ConflictPolicy::resolve(&cfg_from("port_conflict = \"auto\"\n"), &None).unwrap(),
        ConflictPolicy::Auto
    );
    assert!(ConflictPolicy::resolve(&cfg_from("port_conflict = \"maybe\"\n"), &None).is_err());
}

fn plan_with(port: u16) -> PortPlan {
    PortPlan {
        api_host: "127.0.0.1".into(),
        api_port: port,
        dns_port: 0, // 0 = ephemeral, always bindable
        k8s_port: 0,
        dns_zone: DEFAULT_DNS_ZONE.into(),
    }
}

/// The probes of a plan whose API port is taken; the next two ports are free.
fn held(plan: &PortPlan) -> Vec<Probed> {
    plan.checks()
        .iter()
        .map(|c| {
            if c.setting == Setting::Api {
                Probed::InUse {
                    holder: Some(Holder { pid: 77, command: "nginx".into(), home: None }),
                    free: vec![plan.api_port + 1, plan.api_port + 2],
                }
            } else {
                Probed::Free
            }
        })
        .collect()
}

#[test]
fn preflight_fails_on_a_held_port() {
    let port = 7440;
    let plan = plan_with(port);
    let err = preflight(&plan, ConflictPolicy::Fail, &held(&plan)).unwrap_err();
    assert!(
        err.contains(&format!("tcp {port} (api_port) is already in use")),
        "{err}"
    );
    assert!(err.contains("port_conflict"), "{err}");
}

#[test]
fn auto_policy_moves_off_a_held_port() {
    let port = 7440;
    let plan = plan_with(port);
    let out = preflight(&plan, ConflictPolicy::Auto, &held(&plan)).unwrap();
    assert_ne!(out.api_port, port);
    assert!(out.api_port > port);
    assert_eq!(out.api_port, 7441);
}

#[test]
fn preflight_passes_when_ports_are_free() {
    // API disabled: not probed at all.
    let plan = plan_with(0);
    let probes: Vec<Probed> = plan.checks().iter().map(|_| Probed::Free).collect();
    let out = preflight(&plan, ConflictPolicy::Fail, &probes).unwrap();
    assert_eq!(format!("{out:?}"), format!("{plan:?}"));
}

#[test]
fn bind_report_tracks_failures() {
    let mut report = BindReport::new();
    set_bind(&mut report, "test-ok", "127.0.0.1:1", None);
    set_bind(
        &mut report,
        "test-bad",
        "127.0.0.1:2",
        Some("Address already in use".into()),
    );
    let all = binds(&report);
    assert!(all.iter().any(|b| b.service == "test-ok" && b.ok));
    assert!(all
        .iter()
        .any(|b| b.service == "test-bad" && !b.ok && b.error.is_some()));
    assert!(failing(&report) >= 1);
    clear_bind(&mut report, "test-ok");
    clear_bind(&mut report, "test-bad");
    assert!(!binds(&report).iter().any(|b| b.service.starts_with("test-")));
}

#[test]
fn shell_quote_handles_spaces() {
    assert_eq!(shell_quote("/Users/x/.nebula"), "/Users/x/.nebula");
    assert_eq!(
        shell_quote("/Users/x/Application Support/n"),
        "'/Users/x/Application Support/n'"
    );
}

#[test]
fn shell_quote_survives_quotes() {
    assert_eq!(shell_quote("it's"), "'it'\\''s'");
    assert_eq!(shell_quote(""), "");
}

#[test]
fn the_environment_host_wins() {
    let cfg = cfg_from("api_host = \"10.0.0.1\"\n");
    assert_eq!(PortPlan::resolve(&cfg, &None).api_host, "10.0.0.1");
    assert_eq!(PortPlan::resolve(&cfg, &Some("0.0.0.0".into())).api_host, "0.0.0.0");
    assert_eq!(PortPlan::resolve(&cfg, &Some("".into())).api_host, "10.0.0.1");
    assert_eq!(PortPlan::resolve(&Config::default(), &None).api_host, "127.0.0.1");
}

#[test]
fn the_environment_policy_wins() {
    let cfg = cfg_from("port_conflict = \"auto\"\n");
    assert_eq!(ConflictPolicy::resolve(&cfg, &Some("fail".into())).unwrap(), ConflictPolicy::Fail);
    let e = ConflictPolicy::resolve(&cfg, &Some("x".into())).unwrap_err();
    assert_eq!(e.value, "x");
}

#[test]
fn every_owned_port_is_checked() {
    let p = PortPlan::resolve(&Config::default(), &None);
    let checks: Vec<(Setting, u16, Proto)> = p.checks().iter().map(|c| (c.setting, c.port, c.proto)).collect();
    assert_eq!(
        checks,
        vec![
            (Setting::Api, 7440, Proto::Tcp),
            (Setting::Dns, 42053, Proto::Udp),
            (Setting::K8s, 6443, Proto::Tcp),
        ]
    );
    assert_eq!((Proto::Tcp.as_str(), Proto::Udp.as_str()), ("tcp", "udp"));
    assert_eq!((Setting::Dns.name(), Setting::K8s.name()), ("dns_port", "k8s_port"));
}

#[test]
fn a_failed_probe_is_told() {
    let plan = plan_with(7440);
    let probes: Vec<Probed> = plan
        .checks()
        .iter()
        .map(|c| if c.setting == Setting::Api { Probed::Failed("denied".into()) } else { Probed::Free })
        .collect();
    let err = preflight(&plan, ConflictPolicy::Fail, &probes).unwrap_err();
    assert!(err.contains("denied"), "{err}");
}

#[test]
fn with_nothing_free_nearby_auto_gives_up() {
    let plan = plan_with(7440);
    let probes: Vec<Probed> = plan
        .checks()
        .iter()
        .map(|c| {
            if c.setting == Setting::Api {
                Probed::InUse { holder: None, free: vec![] }
            } else {
                Probed::Free
            }
        })
        .collect();
    assert!(preflight(&plan, ConflictPolicy::Auto, &probes).is_err());
}

#[test]
fn the_next_free_port_is_taken() {
    assert_eq!(free_near(100, &vec![103, 102]), Some(102));
    assert_eq!(free_near(100, &vec![]), None);
    assert_eq!(free_near(100, &vec![99, 301]), None);
    assert_eq!(free_near(100, &vec![101, 100]), Some(100));
    assert_eq!(free_near(65535, &vec![65535]), Some(65535));
    assert_eq!(free_near(65535, &vec![1]), None);
}

#[test]
fn holders_are_described() {
    let h = Holder { pid: 77, command: "nginx".into(), home: None };
    assert_eq!(h.describe(), "nginx pid 77");
    let h = Holder { pid: 78, command: "nebulad".into(), home: Some("/h".into()) };
    assert_eq!(h.describe(), "nebulad pid 78 (NEBULA_HOME=/h)");
    assert!(holder_of(None, None).is_none());
    assert_eq!(holder_of(Some((3, "x".into())), Some("/h".into())).unwrap().pid, 3);
}

#[test]
fn owners_are_read_from_the_tools() {
    assert_eq!(port_owner("p4321\ncnebulad\n"), Some((4321, "nebulad".to_string())));
    assert_eq!(port_owner(""), None);
    let netstat = "  TCP    127.0.0.1:7440    0.0.0.0:0    LISTENING    991\r\n  UDP    0.0.0.0:53    *:*    12\r\n";
    assert_eq!(netstat_pid(netstat, 7440, Proto::Tcp), Some(991));
    assert_eq!(netstat_pid(netstat, 53, Proto::Udp), Some(12));
    assert_eq!(netstat_pid(netstat, 54, Proto::Udp), None);
    assert_eq!(task_name("\"nebulad.exe\",\"991\",\"Console\"\r\n"), "nebulad.exe");
}

#[test]
fn instances_are_told_by_their_homes() {
    let lsof = "p9\nn/dev/null\nn/h/.n/run/nebulad.sock\n";
    assert_eq!(nebula_home_of(lsof).as_deref(), Some("/h/.n"));
    assert_eq!(nebula_home_of("p9\nn/dev/null\n"), None);
}

#[test]
fn one_zone_for_two_instances_is_warned_about() {
    let plan = plan_with(0);
    assert!(shares_dns_zone(&plan, &None));
    assert!(!shares_dns_zone(&plan, &Some("galaxy.local".into())));
    assert!(warn_shared_dns_zone(&plan, &Some("galaxy.local".into()), "/p").is_none());
    let w = warn_shared_dns_zone(&plan, &Some("nebula.local".into()), "/p").unwrap();
    assert!(w.contains("/p"), "{w}");
}

#[test]
fn peers_leave_this_process_out() {
    let lsof = "p5\nn/me/run/nebulad.sock\np6\nn/a/run/nebulad.sock\nn/a/run/nebulad.sock\np7\nn/b/run/nebulad.sock\n";
    assert_eq!(peer_homes(lsof, 5), vec!["/a", "/b"]);
    assert_eq!(peer_homes(lsof, 99), vec!["/me", "/a", "/b"]);
    // One path, however it is written.
    let lsof = "p6\nn/h/run/nebulad.sock\np7\nn/h//run/nebulad.sock\np8\nn/./h/run/nebulad.sock\np9\nnh/run/nebulad.sock\n";
    assert_eq!(peer_homes(lsof, 5), vec!["/h", "h"]);
}

#[test]
fn a_service_keeps_its_place_in_the_report() {
    let mut r = BindReport::new();
    set_bind(&mut r, "b", "x:1", None);
    set_bind(&mut r, "a", "x:2", Some("taken".into()));
    set_bind(&mut r, "b", "x:3", None);
    let names: Vec<&str> = binds(&r).iter().map(|b| b.service.as_str()).collect();
    assert_eq!(names, vec!["a", "b"]);
    assert_eq!(binds(&r)[1].addr, "x:3");
    assert_eq!(failing(&r), 1);
}

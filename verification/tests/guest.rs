use nebula::agent::{
    bad_request, default_gateway, dispatch, dns_port, exec_result, exec_step, health, k3s_args, mem_stats,
    pressure, uptime, AgentDo, ExecStep, K3sDo, K3sEvent, Supervisor, OUTPUT_CAP,
};
use nebula::double::Double;
use nebula::guest_init::{attach_console, boot_line, mount_pseudo, programs, reaped, setup_data_disk, DataDo, ReapDo};
use nebula::proto::{AgentRequest, AgentResponse, ServiceAction};

#[test]
fn requests_are_dispatched() {
    assert!(matches!(dispatch(AgentRequest::Health), AgentDo::Health));
    assert!(matches!(dispatch(AgentRequest::MemStats), AgentDo::MemStats));
    assert!(matches!(dispatch(AgentRequest::Shutdown), AgentDo::PowerOff));
    let ctl = |name: &str, action| dispatch(AgentRequest::ServiceCtl { name: name.into(), action });
    assert!(matches!(ctl("k3s", ServiceAction::Start), AgentDo::EnableK3s));
    assert!(matches!(ctl("k3s", ServiceAction::Stop), AgentDo::DisableK3s));
    assert!(matches!(ctl("k3s", ServiceAction::Status), AgentDo::StatusK3s));
    assert!(matches!(
        ctl("cron", ServiceAction::Start),
        AgentDo::Answer(AgentResponse::Error { message }) if message == "unknown service `cron`"
    ));
    let e = AgentRequest::Exec { cmd: "ls".into(), args: vec!["-l".into()], env: vec![], timeout_ms: 5 };
    assert!(matches!(dispatch(e), AgentDo::Exec { cmd, timeout_ms: 5, .. } if cmd == "ls"));
    assert!(matches!(bad_request("x"), AgentResponse::Error { message } if message == "bad request: x"));
}

#[test]
fn memory_is_read_from_proc() {
    let meminfo = "MemTotal:       1000 kB\nMemFree: 10 kB\nMemAvailable: 500 kB\nCached: 7 kB\n";
    let psi = "some avg10=1.25 avg60=0.00 avg300=0.00 total=1\nfull avg10=0.50 avg60=0.00 avg300=0.00 total=1\n";
    let double = |t: String| Double { bits: t.parse::<f64>().unwrap().to_bits() };
    let of = |kind| pressure(psi, kind).map(double);
    let m = mem_stats(meminfo, of("some"), of("full"));
    assert_eq!((m.total_kib, m.free_kib, m.available_kib, m.cached_kib), (1000, 10, 500, 7));
    assert_eq!((m.psi_some_avg10, m.psi_full_avg10), (Some(double("1.25".into())), Some(double("0.5".into()))));
    let m = mem_stats("", None, None);
    assert_eq!((m.total_kib, m.psi_some_avg10), (0, None));
}

#[test]
fn health_tells_the_uptime() {
    assert_eq!(uptime("12.34 50.00\n").as_deref(), Some("12.34"));
    assert_eq!(uptime("-0.5e3 1").as_deref(), Some("-0.5e3"));
    assert_eq!(uptime("12.3.4 5"), None);
    assert_eq!(uptime(" \n"), None);
    let up = |x: f64| Some(Double { bits: x.to_bits() });
    let h = health("0.1", "6.6", up(12.34), &Some("10.0.0.2".into()));
    assert_eq!((h.uptime_secs, h.agent_version.as_str(), h.ip.as_deref()), (12, "0.1", Some("10.0.0.2")));
    assert_eq!(health("", "", None, &None).uptime_secs, 0);
    assert_eq!(health("", "", up(-3.0), &None).uptime_secs, 0);
}

#[test]
fn the_gateway_is_the_default_route() {
    let route = "Iface\tDestination\tGateway\neth0\t0000A8C0\t00000000\neth0\t00000000\t0140A8C0\t0003\n";
    assert_eq!(default_gateway(route), Some(vec![192, 168, 64, 1]));
    assert_eq!(default_gateway("Iface\n"), None);
    assert_eq!(dns_port(&Some("42099".into())), 42099);
    assert_eq!(dns_port(&Some("x".into())), 42053);
    assert_eq!(dns_port(&None), 42053);
}

#[test]
fn commands_are_timed_and_their_output_capped() {
    assert!(matches!(exec_step(true, 99, 10), ExecStep::Finished));
    assert!(matches!(exec_step(false, 5, 10), ExecStep::Wait));
    assert!(matches!(exec_step(false, 11, 10), ExecStep::Kill));
    let long = vec![b'x'; OUTPUT_CAP + 10];
    let r = exec_result(Some(3), &long, b"\xffe", false);
    assert_eq!((r.exit_code, r.stdout.len()), (3, OUTPUT_CAP));
    assert_eq!(r.stderr, "\u{fffd}e");
    assert_eq!(exec_result(None, b"", b"", true).exit_code, -1);
}

#[test]
fn one_supervisor_looks_after_k3s() {
    let mut s = Supervisor::new();
    assert!(matches!(s.on(K3sEvent::Boot { wanted: false }), K3sDo::Idle));
    assert!(matches!(s.on(K3sEvent::Enable), K3sDo::RememberAndSupervise));
    assert!(matches!(s.on(K3sEvent::Enable), K3sDo::Remember));
    assert!(matches!(s.on(K3sEvent::Look { wanted: true }), K3sDo::Spawn));
    s.on(K3sEvent::Spawned { pid: 42 });
    assert!(s.running(true));
    assert!(!s.running(false));
    assert!(matches!(s.on(K3sEvent::Disable), K3sDo::ForgetAndStop { pid: 42 }));
    assert!(matches!(s.on(K3sEvent::Exited), K3sDo::Pause));
    assert!(matches!(s.on(K3sEvent::Disable), K3sDo::Forget));
    assert!(matches!(s.on(K3sEvent::Look { wanted: false }), K3sDo::End));
    assert!(matches!(s.on(K3sEvent::Boot { wanted: true }), K3sDo::Supervise));
    assert!(matches!(s.on(K3sEvent::SpawnFailed), K3sDo::Pause));
}

#[test]
fn k3s_is_told_its_address() {
    assert_eq!(
        k3s_args("10.0.0.2"),
        vec!["server", "--write-kubeconfig-mode", "644", "--disable", "traefik", "--tls-san", "10.0.0.2"]
    );
    assert_eq!(k3s_args("").len(), 5);
}

#[test]
fn the_first_process_mounts_in_order() {
    let m = mount_pseudo();
    assert_eq!(m.len(), 8);
    assert_eq!((m[0].fstype.as_str(), m[0].target.as_str()), ("proc", "/proc"));
    assert_eq!(m[3].data.as_deref(), Some("mode=0620,ptmxmode=0666"));
    assert_eq!(
        attach_console(&vec![("vport0p1".into(), "krun-stdout\n".into()), ("vport0p2".into(), "x".into())]),
        vec!["/dev/vport0p1", "/dev/hvc0"]
    );
}

#[test]
fn only_a_blank_disk_is_formatted() {
    assert!(matches!(setup_data_disk(false, &None), DataDo::Skip));
    assert!(matches!(setup_data_disk(true, &Some((0x53, 0xef))), DataDo::Mount));
    assert!(matches!(setup_data_disk(true, &Some((0, 0))), DataDo::FormatAndMount));
    assert!(matches!(setup_data_disk(true, &None), DataDo::FormatAndMount));
}

#[test]
fn the_agent_is_started_again() {
    assert!(matches!(reaped(5, 5), ReapDo::Restart));
    assert!(matches!(reaped(6, 5), ReapDo::Nothing));
    assert!(matches!(reaped(-1, 5), ReapDo::Pause));
    assert_eq!(boot_line(true, "1", "u"), "NEBULA_VESSEL_UP init=1 uname=u");
    assert_eq!(boot_line(false, "1", "u"), "NEBULA_SPIKE_OK init=1 uname=u");
}

#[test]
fn the_display_bridge_is_started_where_it_is() {
    assert_eq!(programs(false), vec!["/usr/bin/vessel-agent"]);
    assert_eq!(programs(true), vec!["/usr/bin/vessel-agent", "/usr/bin/vessel-display"]);
}

#[test]
fn pressure_is_a_number_or_none() {
    let psi = "some avg60=1 avg10=10.005\nfull avg10=x\nsome avg10=3\n";
    assert_eq!(pressure(psi, "some").as_deref(), Some("10.005"));
    assert_eq!(pressure(psi, "full"), None);
    assert_eq!(pressure(psi, "none"), None);
    assert_eq!(pressure("some total=1\n", "some"), None);
    assert_eq!(pressure("some avg10=inf\n", "some").as_deref(), Some("inf"));
}

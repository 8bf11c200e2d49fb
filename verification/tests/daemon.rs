use nebula::backend::{backend_by_name, wait_for, BackendKind, Compiled, VmState, WaitStep};
use nebula::error::Error;
use nebula::ipc::{port_file, read_port_file};
use nebula::paths::{file_name, has_path, join, nebula_home, same_path, Env, NoHome, Paths};
use nebula::proto::{
    AgentRequest, AgentResponse, DaemonRequest, DaemonResponse, ExecResult, Health, InstanceNet,
    MemStats, ShellOpen,
};
use nebula::server::{bad_request, begin, step, After, Info, Outcome, Session, Task};

#[test]
fn states_are_waited_for() {
    assert!(matches!(wait_for(VmState::Running, VmState::Running, 0, 10), WaitStep::Reached));
    assert!(matches!(wait_for(VmState::Starting, VmState::Running, 9, 10), WaitStep::Again));
    match wait_for(VmState::Starting, VmState::Running, 3000, 3000) {
        WaitStep::Fail(e) => {
            assert_eq!(e.message(), "VM did not reach state Running within 3s (state: Starting)")
        }
        s => panic!("{s:?}"),
    }
    match wait_for(VmState::Failed, VmState::Running, 0, 10) {
        WaitStep::Fail(e) => assert_eq!(e.message(), "backend `vm` failed: VM entered Failed state"),
        s => panic!("{s:?}"),
    }
}

#[test]
fn backends_are_looked_up() {
    let both = Compiled { vz: true, krun: true };
    assert!(matches!(backend_by_name("vz", both), Ok(BackendKind::Vz)));
    assert!(matches!(backend_by_name("krun", both), Ok(BackendKind::Krun)));
    let e = backend_by_name("vz", Compiled { vz: false, krun: true }).unwrap_err();
    assert_eq!(
        e.message(),
        "backend `unknown` is not available on this host: no backend named `vz` compiled into this build"
    );
}

#[test]
fn errors_have_their_texts() {
    assert_eq!(Error::InvalidSpec("x".into()).message(), "invalid VM spec: x");
    assert_eq!(Error::FileNotFound("/k".into()).message(), "file not found: /k");
    assert_eq!(Error::backend("krun", "no").message(), "backend `krun` failed: no");
    assert_eq!(Error::Io("denied".into()).message(), "denied");
}

fn env(nebula: Option<&str>, home: Option<&str>, profile: Option<&str>) -> Env {
    Env {
        nebula_home: nebula.map(String::from),
        home: home.map(String::from),
        userprofile: profile.map(String::from),
    }
}

#[test]
fn the_home_is_found() {
    assert_eq!(nebula_home(&env(Some("/n"), Some("/h"), None)).unwrap(), "/n");
    assert_eq!(nebula_home(&env(None, Some("/h"), Some("/p"))).unwrap(), "/h/.nebula");
    assert_eq!(nebula_home(&env(None, None, Some("/p"))).unwrap(), "/p/.nebula");
    assert!(nebula_home(&env(None, None, None)).is_err());
    assert!(!NoHome.message().is_empty());
}

#[test]
fn everything_stands_below_the_home() {
    let p = Paths::new(&env(Some("/n"), None, None)).unwrap();
    assert_eq!(p.config_toml(), "/n/config.toml");
    assert_eq!(p.control_sock(), "/n/run/nebulad.sock");
    assert_eq!(p.pid_file(), "/n/run/nebulad.pid");
    assert_eq!(p.docker_sock(), "/n/run/docker.sock");
    assert_eq!(p.rootfs_img(), "/n/disks/rootfs.img");
    assert_eq!(p.data_img(), "/n/disks/data.img");
    assert!(p.ensure_dirs().contains(&"/n/run".to_string()));
    for f in [
        p.run_dir(),
        p.logs_dir(),
        p.disks_dir(),
        p.kernel_dir(),
        p.engine_mac_file(),
        p.startup_error(),
        p.containerd_sock(),
        p.console_log(),
        p.daemon_log(),
        p.kernel_image(),
    ] {
        assert!(f.starts_with("/n/"), "{f}");
    }
    assert_eq!(nebula::paths::control_sock("/n"), p.control_sock());
}

#[test]
fn paths_are_joined() {
    assert_eq!(join("/a", "b"), "/a/b");
    assert_eq!(join("/a/", "b"), "/a/b");
    assert_eq!(join("/a", "/b"), "/b");
    assert_eq!(file_name("/a/b.img").as_deref(), Some("b.img"));
    assert_eq!(file_name("/"), None);
    assert!(same_path("/h", "/h/") && same_path("/a//b", "/a/./b") && same_path("./a", "./a/"));
    assert!(!same_path("/h", "h") && !same_path("./a", "a") && !same_path("/a/../b", "/b"));
    assert!(has_path(&vec!["/x".into(), "/h/".into()], "/h") && !has_path(&vec!["/x".into()], "/h"));
}

#[test]
fn a_port_reads_back() {
    assert_eq!(read_port_file(&port_file(7440)), Some(7440));
    assert_eq!(read_port_file(" 9\n"), Some(9));
    assert_eq!(read_port_file("70000"), None);
}

#[test]
fn defaults_of_the_protocol() {
    assert_eq!(ShellOpen::default_shell(), "/bin/sh");
    let n = InstanceNet::default();
    assert_eq!((n.k8s_port, n.dns_zone.as_str()), (6443, "nebula.local"));
}

fn info() -> Info {
    Info {
        version: "0.1.0".into(),
        pid: 7,
        state: VmState::Running,
        cpus: 4,
        mem_mib: 8192,
        uptime_secs: 60,
        k8s_port: 6443,
        dns_zone: "nebula.local".into(),
        balloon_target_mib: 100,
        max_mib: 8192,
        host_footprint_mib: 50,
    }
}

fn health() -> Health {
    Health { proto_version: 1, agent_version: "a".into(), kernel: "k".into(), uptime_secs: 1, ip: None }
}

fn mem() -> MemStats {
    MemStats {
        total_kib: 1,
        free_kib: 2,
        available_kib: 3,
        cached_kib: 4,
        psi_some_avg10: None,
        psi_full_avg10: None,
    }
}

#[test]
fn a_status_asks_twice_and_answers_once() {
    let (s, t) = begin(DaemonRequest::Status);
    assert!(matches!(t, Task::Ask(AgentRequest::Health)));
    let (s, t) = step(s, Outcome::Answer(Ok(AgentResponse::Health(health()))), &info());
    assert!(matches!(t, Task::Ask(AgentRequest::MemStats)));
    let (s, t) = step(s, Outcome::Answer(Ok(AgentResponse::MemStats(mem()))), &info());
    assert!(matches!(s, Session::Over));
    match t {
        Task::Reply(r) => {
            assert!(matches!(r.after, After::Close));
            match r.response {
                DaemonResponse::Status(st) => {
                    assert_eq!(st.vm_state, "Running");
                    assert_eq!(st.agent.unwrap().kernel, "k");
                    assert_eq!(st.mem.unwrap().cached_kib, 4);
                }
                d => panic!("{d:?}"),
            }
        }
        t => panic!("{t:?}"),
    }
}

#[test]
fn a_silent_agent_is_left_out() {
    let (s, _) = begin(DaemonRequest::Status);
    let (s, _) = step(s, Outcome::Answer(Err("no".into())), &info());
    let (_, t) = step(s, Outcome::Answer(Err("no".into())), &info());
    match t {
        Task::Reply(r) => match r.response {
            DaemonResponse::Status(st) => assert!(st.agent.is_none() && st.mem.is_none()),
            d => panic!("{d:?}"),
        },
        t => panic!("{t:?}"),
    }
}

#[test]
fn requests_end_as_they_should() {
    let (s, t) = begin(DaemonRequest::Down { force: true });
    assert!(matches!(t, Task::Stop { force: true }));
    let (_, t) = step(s, Outcome::Done(Ok(())), &info());
    assert!(matches!(t, Task::Reply(r) if matches!(r.after, After::Exit) && matches!(r.response, DaemonResponse::Done)));

    let (s, t) = begin(DaemonRequest::Balloon { target_mib: 5 });
    assert!(matches!(t, Task::SetBalloon { target_mib: 5 }));
    let (_, t) = step(s, Outcome::Done(Err("no".into())), &info());
    assert!(matches!(t, Task::Reply(r) if matches!(&r.response, DaemonResponse::Error { message } if message == "no")));

    let (s, _) = begin(DaemonRequest::Stats);
    let (_, t) = step(s, Outcome::Answer(Ok(AgentResponse::MemStats(mem()))), &info());
    assert!(matches!(t, Task::Reply(r) if matches!(&r.response, DaemonResponse::Stats(v) if v.max_mib == 8192 && v.guest.is_some())));

    let open = ShellOpen { cmd: "sh".into(), args: vec![], cols: 80, rows: 24 };
    let (s, t) = begin(DaemonRequest::Shell { open });
    assert!(matches!(t, Task::OpenShell(o) if o.cmd == "sh"));
    let (_, t) = step(s, Outcome::Done(Ok(())), &info());
    assert!(matches!(t, Task::Reply(r) if matches!(r.after, After::Bridge)));

    let (s, _) = begin(DaemonRequest::Agent { request: AgentRequest::Shutdown });
    let exec = ExecResult { exit_code: 0, stdout: "x".into(), stderr: "".into(), timed_out: false };
    let (_, t) = step(s, Outcome::Answer(Ok(AgentResponse::Exec(exec))), &info());
    assert!(matches!(t, Task::Reply(r) if matches!(&r.response, DaemonResponse::Agent { .. })));

    let r = bad_request("line 1");
    assert!(matches!(r.response, DaemonResponse::Error { message } if message == "bad request: line 1"));
}

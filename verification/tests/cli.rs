use nebula::autostart::{docker, domain, helm, kubectl, plist, plist_path, service, status, tool_missing};
use nebula::commands::{
    doctor, doctor_checks, down_answer, download_args, download_failed, ensure_images_installed, exec_answer,
    image_files, images_arch, images_url, install_image, install_name, install_sources, logs_args,
    no_console_log, no_daemon_binary, on_disk_line, onto_itself, place_contents, place_image, quickstart,
    stats_line, status_answer, status_lines, stopped_lines, up_lines, up_step, DoctorFacts, ImagesFrom,
    InstallError, InstallStep, Listens, Refused, Sources, UpSeen, UpStep,
};
use nebula::contexts::{
    context_meta, docker_config_path, docker_context_meta_dir, load_stack, nebula_docker_host, nerdctl_settings,
    nerdctl_toml, pointing_at_nebula, pop_prev, previous_name, push_prev, remote_warning as docker_warning,
    revert_docker, revert_nerdctl, revert_tool, select_nerdctl, setup_tool, stack_doc, stack_path, use_docker, PutBack, Tool,
    UseDocker,
};
use nebula::double::Double;
use nebula::doc::{as_list, copy, copy_at, get, parse_json, parse_yaml, text_field, Doc, Step};
use nebula::gzip::{is_gzip, maybe_gunzip};
use nebula::kube::{
    forward_missing, fresh_kubeconfig, kubeconfig_path, kubeconfig_written, looks_remote, merge_kubeconfig, KubeconfigAt,
    no_kubeconfig, node_not_ready, node_ready, remote_warning, revert_kubectl, standalone_of, starting_failed,
    switched_line, upsert_named, wait_step, MergeError, Wait,
};
use nebula::pathsetup::{
    bundle_candidates, bundled_bin_dir, install, is_yes, missing, profile_addition, profile_has_marker, profile_path, Setup, Status, PROFILE_MARKER,
};
use nebula::ports::PortBinding;
use nebula::proto::{
    AgentResponse, DaemonResponse, DaemonStatus, ExecResult, Health, InstanceNet, MemStats, StatsView,
};
use nebula::sandbox::{sandbox_initramfs, sandbox_output, sandbox_spec, script, shell_join, SandboxOpts};
use nebula::sparse::FileOp;
use nebula::spike::{
    at_least_a_gib, build_spike_initramfs, ensure_kernel, is_arm64_image, kernel_form, run, verdict, KernelForm,
    KernelFrom,
};
use std::io::Write;

const GUEST: &str = "\
apiVersion: v1
clusters:
- cluster:
    certificate-authority-data: CA
    server: https://127.0.0.1:6443
  name: default
contexts:
- context:
    cluster: default
    user: default
  name: default
current-context: default
users:
- name: default
  user:
    token: T
";

fn first<'a>(d: &'a Doc, section: &str) -> &'a Doc {
    &as_list(get(d, section).unwrap()).unwrap()[0]
}

#[test]
fn the_standalone_kubeconfig_names_nebula() {
    let d = standalone_of(GUEST, 6462).unwrap().unwrap();
    let c = first(&d, "clusters");
    assert_eq!(text_field(c, "name").as_deref(), Some("nebula"));
    let inner = get(c, "cluster").unwrap();
    assert_eq!(text_field(inner, "server").as_deref(), Some("https://127.0.0.1:6462"));
    assert_eq!(text_field(inner, "certificate-authority-data").as_deref(), Some("CA"));
    let ctx = get(first(&d, "contexts"), "context").unwrap();
    assert_eq!(text_field(ctx, "cluster").as_deref(), Some("nebula"));
    assert_eq!(text_field(ctx, "user").as_deref(), Some("nebula"));
    assert_eq!(text_field(&d, "current-context").as_deref(), Some("nebula"));
    assert!(standalone_of("a: [", 1).is_err());
    assert!(standalone_of("clusters: 3\n", 1).unwrap().is_none());
}

#[test]
fn kubeconfigs_are_merged_and_reverted() {
    let guest = parse_yaml(GUEST).unwrap();
    let mine = "apiVersion: v1\nclusters:\n- name: prod\n  cluster:\n    server: https://p\ncurrent-context: prod\n";
    let m = merge_kubeconfig(&guest, parse_yaml(mine).unwrap(), "127.0.0.1", 6443).unwrap();
    assert!(m.switched);
    assert_eq!(m.previous.as_deref(), Some("prod"));
    let clusters = as_list(get(&m.root, "clusters").unwrap()).unwrap();
    assert_eq!(clusters.len(), 2);
    assert_eq!(text_field(&clusters[0], "name").as_deref(), Some("prod"));
    assert_eq!(
        text_field(get(&clusters[0], "cluster").unwrap(), "server").as_deref(),
        Some("https://p")
    );
    assert_eq!(text_field(&m.root, "current-context").as_deref(), Some("nebula"));
    // A second time nothing is switched, and nothing is added.
    let again = merge_kubeconfig(&guest, copy(&m.root), "127.0.0.1", 6443).unwrap();
    assert!(!again.switched);
    assert_eq!(as_list(get(&again.root, "clusters").unwrap()).unwrap().len(), 2);
    let back = revert_kubectl(m.root, &Some("prod".into())).unwrap();
    assert_eq!(text_field(&back, "current-context").as_deref(), Some("prod"));
    let back = revert_kubectl(back, &None).unwrap();
    assert!(get(&back, "current-context").is_none());
    assert!(matches!(
        merge_kubeconfig(&Doc::Null, fresh_kubeconfig(), "h", 1),
        Err(MergeError::MissingCluster)
    ));
    assert!(matches!(
        merge_kubeconfig(&guest, Doc::Bool(true), "h", 1),
        Err(MergeError::BadShape)
    ));
}

#[test]
fn other_entries_are_untouched() {
    let root = parse_yaml("users:\n- name: a\n  user: {x: 1}\n- name: nebula\n  user: {x: 2}\n").unwrap();
    let r = upsert_named(root, "users", "user", Doc::Str("new".into())).unwrap();
    let users = as_list(get(&r, "users").unwrap()).unwrap();
    assert_eq!(users.len(), 2);
    assert_eq!(text_field(&users[0], "name").as_deref(), Some("a"));
    assert_eq!(text_field(&users[1], "user").as_deref(), Some("new"));
}

#[test]
fn the_cluster_is_waited_for() {
    assert!(kubeconfig_written(0, "clusters:\n") && !kubeconfig_written(1, "clusters:\n"));
    assert!(node_ready(0, "n  Ready ") && !node_ready(0, "n NotReady "));
    assert!(matches!(wait_step(true, 9, 5), Wait::Ready));
    assert!(matches!(wait_step(false, 4, 5), Wait::Again));
    assert!(matches!(wait_step(false, 6, 5), Wait::GiveUp));
    assert!(looks_remote("prod") && !looks_remote("minikube") && !looks_remote("default (unset)"));
    let listed = |windows: bool, list: &str| match kubeconfig_path(windows, &Some(list.into()), &None) {
        Some(KubeconfigAt::Listed(p)) => p,
        other => panic!("{other:?}"),
    };
    assert_eq!(listed(false, "/a:/b"), "/a");
    assert_eq!(listed(false, ":/b"), "");
    assert_eq!(listed(false, ""), "");
    assert_eq!(listed(true, r"C:\a\config;D:\b"), r"C:\a\config");
    assert_eq!(listed(true, r#""C:\a;b"\config;D:\b"#), r"C:\a;b\config");
    assert_eq!(listed(true, ";x"), "");
    assert!(matches!(
        kubeconfig_path(false, &None, &Some("/h".into())),
        Some(KubeconfigAt::InHome(d)) if d == "/h"
    ));
    assert!(kubeconfig_path(true, &None, &None).is_none());
    assert_eq!(starting_failed("x"), "starting k3s: x");
    assert_eq!(forward_missing(6443), "host forward 127.0.0.1:6443 did not come up within 30s");
    assert_eq!(
        no_kubeconfig(120),
        "k3s did not produce a kubeconfig within 120s (see nebula exec cat /var/log/k3s.log)"
    );
    assert_eq!(node_not_ready(120), "node did not become Ready within 120s");
    assert_eq!(switched_line("prod"), "kubectl → nebula (was: prod)");
    assert!(remote_warning("prod").contains("`prod`"));
}

#[test]
fn tools_are_told_apart() {
    assert!(matches!(setup_tool("docker"), Ok(Tool::Docker)));
    assert_eq!(
        setup_tool("podman").unwrap_err(),
        "unknown tool `podman` (expected docker, nerdctl, or kubectl)"
    );
    assert_eq!(revert_tool("all").unwrap().len(), 3);
    assert!(matches!(revert_tool("kubectl").unwrap()[..], [Tool::Kubectl]));
    assert_eq!(revert_tool("x").unwrap_err(), "unknown tool `x`");
}

#[test]
fn docker_contexts_are_filed_under_their_digest() {
    assert_eq!(docker_config_path("/h"), "/h/.docker/config.json");
    assert_eq!(
        docker_context_meta_dir("/h", "abc"),
        "/h/.docker/contexts/meta/ba7816bf8f01cfea414140de5dae2223b00361a396177a9cb410ff61f20015ad"
    );
    assert_eq!(nebula_docker_host("/n"), "unix:///n/run/docker.sock");
    let m = context_meta("/n");
    assert_eq!(text_field(&m, "Name").as_deref(), Some("nebula"));
    let host = get(get(get(&m, "Endpoints").unwrap(), "docker").unwrap(), "Host").unwrap();
    assert!(matches!(host, Doc::Str(s) if s == "unix:///n/run/docker.sock"));
}

#[test]
fn docker_is_switched_and_put_back() {
    let cfg = || parse_json(br#"{"auths":{"x":1},"currentContext":"colima"}"#).unwrap();
    match use_docker(cfg()) {
        UseDocker::Switch { cfg: d, previous } => {
            assert_eq!(previous.as_deref(), Some("colima"));
            assert_eq!(text_field(&d, "currentContext").as_deref(), Some("nebula"));
            let back = revert_docker(d, &previous).unwrap();
            assert_eq!(format!("{back:?}"), format!("{:?}", cfg()));
        }
        u => panic!("{u:?}"),
    }
    let ours = parse_json(br#"{"currentContext":"nebula"}"#).unwrap();
    assert!(matches!(use_docker(ours), UseDocker::Already));
    assert!(matches!(use_docker(Doc::Num("1".into())), UseDocker::BadShape));
    let none = revert_docker(cfg(), &None).unwrap();
    assert!(get(&none, "currentContext").is_none());
    let meta = parse_json(br#"{"Endpoints":{"docker":{"Host":"ssh://box"}}}"#).unwrap();
    assert!(docker_warning("far", &meta).unwrap().contains("REMOTE docker context `far` (ssh://box)"));
    let meta = parse_json(br#"{"Endpoints":{"docker":{"Host":"unix:///x"}}}"#).unwrap();
    assert!(docker_warning("near", &meta).is_none());
    assert_eq!(previous_name(&None), "default (unset)");
}

#[test]
fn the_history_is_a_stack() {
    let mut s: Vec<Option<String>> = vec![];
    push_prev(&mut s, &Some("a".into()));
    push_prev(&mut s, &None);
    let mut s = load_stack(&stack_doc(&s)).unwrap();
    assert_eq!(pop_prev(&mut s), Some(None));
    assert_eq!(pop_prev(&mut s), Some(Some("a".to_string())));
    assert_eq!(pop_prev(&mut s), None);
    assert!(load_stack(&Doc::Bool(true)).is_none());
    assert_eq!(stack_path("/n", "docker"), "/n/contexts/docker.prev.json");
}

#[test]
fn nerdctl_has_a_file() {
    assert_eq!(nerdctl_toml("/h"), "/h/.config/nerdctl/nerdctl.toml");
    let fresh = nerdctl_settings(&None, "/n").unwrap();
    assert_eq!(text_field(&fresh, "address").as_deref(), Some("unix:///n/run/containerd.sock"));
    assert_eq!(text_field(&fresh, "namespace").as_deref(), Some("default"));
    let old = "# mine\naddress = \"unix:///other.sock\"\ndebug = true\n".to_string();
    let edited = nerdctl_settings(&Some(old), "/n").unwrap();
    assert_eq!(text_field(&edited, "address").as_deref(), Some("unix:///n/run/containerd.sock"));
    assert_eq!(text_field(&edited, "namespace").as_deref(), Some("default"));
    let debug = copy_at(&edited, &vec![Step::Key("debug".into())]);
    assert!(matches!(debug, Doc::Bool(true)));
    let mine = nerdctl_settings(&Some("namespace = \"k8s.io\"\n".into()), "/n").unwrap();
    assert_eq!(text_field(&mine, "namespace").as_deref(), Some("k8s.io"));
    assert!(nerdctl_settings(&Some("= no".into()), "/n").is_err());
    assert!(select_nerdctl(Doc::Bool(true), "/n").is_none());
    assert!(matches!(revert_nerdctl(&Some("old".into())), PutBack::Write(t) if t == "old"));
    assert!(matches!(revert_nerdctl(&None), PutBack::Remove));
    let cfg = parse_json(br#"{"currentContext":"nebula"}"#).unwrap();
    assert_eq!(
        pointing_at_nebula(&Some(cfg), &Some("address = \"unix:///h/.nebula/run/containerd.sock\"".into())),
        vec!["docker", "nerdctl"]
    );
    assert!(pointing_at_nebula(&None, &None).is_empty());
}

fn seen(healthy: bool, exited: Option<&str>, reason: &str, overdue: bool) -> UpSeen {
    UpSeen { healthy, exited: exited.map(String::from), reason: reason.into(), overdue }
}

#[test]
fn a_starting_daemon_is_watched() {
    assert!(matches!(up_step(&seen(true, None, "", false), "/n"), UpStep::Ready));
    assert!(matches!(up_step(&seen(false, None, "", false), "/n"), UpStep::Wait));
    let failed = |s: UpSeen| match up_step(&s, "/n") {
        UpStep::Failed(m) => m,
        u => panic!("{u:?}"),
    };
    assert_eq!(
        failed(seen(false, Some("exit status: 1"), "port taken\n\n", false)),
        "nebulad failed to start:\n\nport taken"
    );
    assert_eq!(
        failed(seen(false, Some("exit status: 1"), " \n", false)),
        "nebulad exited before it was ready (exit status: 1) — check /n/logs/nebulad.log"
    );
    assert_eq!(
        failed(seen(false, None, "", true)),
        "nebulad did not become ready within 60s — check /n/logs/nebulad.log"
    );
}

fn binding(service: &str, ok: bool, error: Option<&str>) -> PortBinding {
    PortBinding { service: service.into(), addr: "127.0.0.1:1".into(), ok, error: error.map(String::from) }
}

#[test]
fn failed_binds_are_told_at_the_start() {
    let l = up_lines("0.6s", "Running", &vec![binding("api", true, None), binding("dns", false, Some("taken"))]);
    assert_eq!(
        l,
        vec![
            "nebula up in 0.6s (vm Running, agent healthy)",
            "  warning: dns did not bind on 127.0.0.1:1 (taken)",
            "next: nebula setup docker — or run `nebula quickstart` for the guide",
        ]
    );
}

#[test]
fn answers_are_read() {
    assert!(down_answer(&DaemonResponse::Done).is_ok());
    assert!(matches!(
        down_answer(&DaemonResponse::Error { message: "busy".into() }),
        Err(Refused::Said(m)) if m == "stop failed: busy"
    ));
    assert!(matches!(down_answer(&DaemonResponse::ShellStarted), Err(Refused::Unexpected)));
    let ok = DaemonResponse::Agent {
        response: AgentResponse::Exec(ExecResult {
            exit_code: 3,
            stdout: "o".into(),
            stderr: "e".into(),
            timed_out: true,
        }),
    };
    let r = exec_answer(&ok).unwrap();
    assert_eq!((r.exit_code, r.stdout.as_str()), (3, "o"));
    assert!(r.stderr.contains("command timed out"), "{}", r.stderr);
    let refused = DaemonResponse::Agent { response: AgentResponse::Error { message: "no".into() } };
    assert!(matches!(exec_answer(&refused), Err(Refused::Said(m)) if m == "exec failed: no"));
    assert!(matches!(
        status_answer(&DaemonResponse::Error { message: "x".into() }),
        Err(Refused::Said(m)) if m == "status failed: x"
    ));
}

fn daemon_status() -> DaemonStatus {
    DaemonStatus {
        daemon_version: "0.1".into(),
        daemon_pid: 9,
        vm_state: "Running".into(),
        backend: "vz".into(),
        cpus: 4,
        mem_mib: 8192,
        agent: Some(Health {
            proto_version: 1,
            agent_version: "0.2".into(),
            kernel: "6.6".into(),
            uptime_secs: 5,
            ip: None,
        }),
        mem: Some(MemStats {
            total_kib: 4096,
            free_kib: 0,
            available_kib: 2048,
            cached_kib: 0,
            psi_some_avg10: Some(Double { bits: 0.1f64.to_bits() }),
            psi_full_avg10: None,
        }),
        uptime_secs: 60,
        net: InstanceNet { k8s_port: 6443, dns_zone: "nebula.local".into() },
    }
}

#[test]
fn a_status_is_printed() {
    let listens = Listens { api_host: "127.0.0.1".into(), api_port: 7440, dns_port: 42053 };
    let l = status_lines(
        &daemon_status(),
        &listens,
        &vec![binding("api", true, None)],
        &vec!["docker".to_string()],
        &Some("0.1".into()),
    );
    assert_eq!(
        l,
        vec![
            "nebula: running",
            "  backend:  vz | cpus 4 | max ram 8192 MiB",
            "  daemon:   v0.1 (pid 9), up 60s",
            "  agent:    v0.2 healthy | kernel 6.6 | guest uptime 5s",
            "  ports:    api 127.0.0.1:7440 | dns udp 42053 | k8s 6443 | zone nebula.local",
            "  listeners: 1 bound, all healthy",
            "  contexts: docker → nebula",
            "  guest mem: 2 / 4 MiB available | pressure 0.1%",
        ]
    );
    let mut s = daemon_status();
    s.agent = None;
    s.mem = None;
    let off = Listens { api_host: "h".into(), api_port: 0, dns_port: 1 };
    let l = status_lines(&s, &off, &vec![binding("dns", false, Some("taken"))], &vec![], &None);
    assert_eq!(l[3], "  agent:    UNREACHABLE");
    assert!(l[4].starts_with("  ports:    api off |"));
    assert_eq!(&l[5..], &["  listeners: 1 FAILED to bind", "    dns on 127.0.0.1:1 — taken"]);
    assert_eq!(stopped_lines()[0], "nebula: stopped (daemon not running)");
}

#[test]
fn stats_take_a_line() {
    let guest = MemStats {
        total_kib: 8 * 1024 * 1024,
        free_kib: 0,
        available_kib: 1024 * 1024,
        cached_kib: 0,
        psi_some_avg10: None,
        psi_full_avg10: None,
    };
    let s = StatsView { guest: Some(guest), balloon_target_mib: 4096, max_mib: 8192, host_footprint_mib: 77 };
    assert_eq!(
        stats_line(&s, &None).as_deref(),
        Some("guest 3072/4096 MiB used (avail 1024) | balloon holds 4096 MiB of 8192 | host footprint 77 MiB")
    );
    let s = StatsView { guest: None, balloon_target_mib: 1, max_mib: 1, host_footprint_mib: 0 };
    assert_eq!(stats_line(&s, &None).as_deref(), Some("guest stats unavailable"));
}

#[test]
fn the_guide_ends_with_the_next_move() {
    let l = quickstart(false, &vec!["helm".into()], true);
    assert_eq!(l[0], "\x1b[1mNEBULA QUICKSTART\x1b[0m");
    assert!(l.contains(&"helm not on your PATH — `nebula setup path` links the bundled copies".to_string()));
    assert!(l.last().unwrap().ends_with("start with: nebula up"));
    let l = quickstart(true, &vec![], true);
    assert!(l.contains(&"   ✓ the engine is running".to_string()));
}

fn fine() -> DoctorFacts {
    DoctorFacts {
        arm64: true,
        kernel: true,
        rootfs: true,
        entitled: true,
        rosetta: true,
        tools: true,
        daemon: true,
        agent: true,
    }
}

#[test]
fn the_doctor_counts_problems() {
    let d = doctor(&fine());
    assert!(d.failed.is_none());
    assert_eq!(d.lines.last().unwrap(), "\nall checks passed");
    let d = doctor(&DoctorFacts { kernel: false, daemon: false, ..fine() });
    assert_eq!(d.failed.as_deref(), Some("2 problem(s) found"));
    assert!(d.lines.contains(&"✗ kernel installed".to_string()));
    // Without a daemon its agent is not asked for.
    assert_eq!(doctor_checks(&DoctorFacts { daemon: false, ..fine() }).len(), 7);
    assert_eq!(doctor_checks(&fine()).len(), 8);
}

#[test]
fn images_are_installed_from_somewhere() {
    assert!(matches!(ensure_images_installed(true, true, false, false), ImagesFrom::Installed));
    assert!(matches!(ensure_images_installed(true, false, true, true), ImagesFrom::BuildTree));
    assert!(matches!(ensure_images_installed(false, false, true, false), ImagesFrom::Release));
    assert!(matches!(install_sources(true, &None, &None, &None), Err(InstallError::Running)));
    assert!(matches!(install_sources(false, &None, &None, &None), Err(InstallError::NoBuildTree)));
    let s = install_sources(false, &Some("/k".into()), &None, &Some("/o".into())).unwrap();
    assert_eq!((s.kernel.as_str(), s.rootfs.as_str()), ("/k", "/o/rootfs.img"));
    assert_eq!(InstallError::NoKernel("/k".into()).message(), "kernel not found: /k");
    assert_eq!(InstallError::NoRootfs("/r".into()).message(), "rootfs not found: /r");
    assert_eq!(
        InstallError::Running.message(),
        "the engine is running — stop it first: nebula down"
    );
    assert_eq!((images_arch("aarch64"), images_arch("x86_64")), ("arm64", "x86_64"));
    assert_eq!(images_url(&Some("https://m".into())), "https://m");
    assert!(images_url(&None).starts_with("https://"));
    assert_eq!(
        image_files("arm64"),
        vec!["SHA256SUMS-arm64", "kernel-Image-arm64.gz", "rootfs-arm64.img.gz"]
    );
    assert_eq!(
        download_args("/t", "https://m", "k"),
        vec!["-fL", "--retry", "3", "--progress-bar", "-o", "/t/k", "https://m/k"]
    );
    assert_eq!(download_failed("https://m", "k"), "download failed: https://m/k");
    assert_eq!(no_daemon_binary("/x"), "nebulad binary not found next to nebula (/x)");
    assert_eq!(no_console_log("/x"), "no console log at /x");
    assert_eq!((logs_args(true), logs_args(false)), (vec!["-f".to_string()], vec!["-n".to_string(), "200".to_string()]));
}

#[test]
fn the_old_disk_goes_before_the_new_one_comes() {
    let s = Sources { kernel: "/k".into(), rootfs: "/r".into() };
    let steps = install_image("/n", &s, true, true, true).unwrap();
    let gone = steps.iter().position(|s| matches!(s, InstallStep::RemoveFile(p) if p == "/n/disks/rootfs.img"));
    let cloned = steps.iter().position(|s| matches!(s, InstallStep::CloneFile { dst, .. } if dst == "/n/disks/rootfs.img"));
    assert!(gone.unwrap() < cloned.unwrap());
    let steps = install_image("/n", &s, true, true, false).unwrap();
    assert!(steps.iter().any(|s| matches!(s, InstallStep::Place { dsts, .. } if dsts.len() == 2)));
    assert!(matches!(install_image("/n", &s, false, true, true), Err(InstallError::NoKernel(_))));
    assert!(matches!(install_image("/n", &s, true, false, true), Err(InstallError::NoRootfs(_))));
}

fn gz(data: &[u8]) -> Vec<u8> {
    let mut e = flate2::write::GzEncoder::new(Vec::new(), flate2::Compression::default());
    e.write_all(data).unwrap();
    e.finish().unwrap()
}

fn written(ops: &[FileOp]) -> Vec<u8> {
    let mut data = Vec::new();
    let mut pos = 0usize;
    for op in ops {
        match op {
            FileOp::SeekTo(n) => pos = *n as usize,
            FileOp::Write(b) => {
                data.resize(data.len().max(pos + b.len()), 0);
                data[pos..pos + b.len()].copy_from_slice(b);
                pos += b.len();
            }
            FileOp::SetLen(n) => data.resize(*n as usize, 0),
        }
    }
    data
}

#[test]
fn images_are_unpacked_on_the_way() {
    let image = vec![7u8; 100];
    assert!(is_gzip(&gz(&image)) && !is_gzip(&image) && !is_gzip(&[0x1f]));
    assert_eq!(maybe_gunzip("/i", gz(&image)).unwrap(), image);
    assert_eq!(maybe_gunzip("/i", image.clone()).unwrap(), image);
    let e = maybe_gunzip("/i", vec![0x1f, 0x8b, 0]).unwrap_err();
    assert!(e.starts_with("decompress /i failed: "), "{e}");

    let dsts = vec!["/a".to_string(), "/b".to_string()];
    for bytes in [gz(&image), image.clone()] {
        let (ops, n) = place_image("/i", bytes, &dsts, &vec![false, false]).unwrap();
        assert_eq!(n, 100);
        assert_eq!(written(&ops), image);
    }
    assert_eq!(
        place_image("/i", image.clone(), &dsts, &vec![false, true]).unwrap_err(),
        "refusing to install /i onto itself"
    );
    // A packed image is read before anything is written.
    assert!(place_image("/i", gz(&image), &dsts, &vec![true]).is_ok());
    assert_eq!(
        place_image("/i", image, &vec![], &vec![]).unwrap_err(),
        "install /i -> : no destination to write"
    );
    assert_eq!(
        place_contents("/i", true, Err("bad".into()), &dsts, &vec![]).unwrap_err(),
        "install /i -> /a, /b: bad"
    );
    assert_eq!(install_name("/i", &dsts), "install /i -> /a, /b");
    assert!(onto_itself(&vec![false, true]) && !onto_itself(&vec![]));
    assert_eq!(
        on_disk_line(2 * 1024 * 1024, 1024 * 1024 * 1024),
        "  rootfs 2 MiB on disk of 1024 MiB logical"
    );
}

#[test]
fn the_profile_grows_once_only() {
    assert_eq!(missing(true, false, false), vec!["kubectl", "helm"]);
    assert_eq!(profile_path("/h", "/bin/bash"), "/h/.bash_profile");
    assert_eq!(profile_path("/h", ""), "/h/.zshrc");
    let add = profile_addition(&Some("alias x=y\n".into())).unwrap();
    assert_eq!(add, format!("\n{PROFILE_MARKER}\nexport PATH=\"$PATH:$HOME/.nebula/bin\"\n"));
    assert!(profile_has_marker(&Some(format!("alias x=y\n{add}"))));
    assert!(profile_addition(&Some(add)).is_none());
    assert!(profile_addition(&None).is_some());
    assert!(is_yes(" Y\n") && !is_yes("yes\n") && !is_yes(""));
    let st = |missing: Vec<&str>, bundle: Option<&str>, done| Status {
        missing_from_path: missing.into_iter().map(String::from).collect(),
        bundle_dir: bundle.map(String::from),
        profile_configured: done,
    };
    assert!(matches!(install(&st(vec!["helm"], None, false), "/n", "/p"), Setup::NoBundle(_)));
    assert!(matches!(
        install(&st(vec![], Some("/b"), true), "/n", "/p"),
        Setup::Nothing(m) if m == "✓ docker, kubectl, and helm are all available; nothing to do"
    ));
    assert!(matches!(
        install(&st(vec![], Some("/b"), false), "/n", "/p"),
        Setup::Nothing(m) if m == "✓ docker, kubectl, and helm are already on your PATH — not changing anything"
    ));
    match install(&st(vec!["helm"], Some("/b"), false), "/n", "/p") {
        Setup::Announce(l) => assert_eq!(l[0], "missing from PATH: helm"),
        s => panic!("{s:?}"),
    }
}

#[test]
fn the_engine_starts_at_login() {
    assert_eq!(plist_path("/h"), "/h/Library/LaunchAgents/dev.nebula.nebulad.plist");
    let p = plist("/x/nebulad", "/n/logs");
    assert!(p.starts_with("<?xml version=\"1.0\" encoding=\"UTF-8\"?>\n"));
    assert!(p.contains("<array><string>/x/nebulad</string></array>"));
    assert!(p.contains("<string>/n/logs/launchd.err.log</string>"));
    assert!(p.ends_with("</plist>\n"));
    assert_eq!((domain(501).as_str(), service(501).as_str()), ("gui/501", "gui/501/dev.nebula.nebulad"));
    assert_eq!(status(true, true, true), vec!["autostart: enabled (loaded)", "engine:    running"]);
    assert_eq!(
        status(true, false, false),
        vec![
            "autostart: installed but not loaded (run `nebula autostart enable`)",
            "engine:    stopped"
        ]
    );
    assert_eq!(status(false, true, false)[0], "autostart: disabled");
}

#[test]
fn tools_run_once_against_the_engine() {
    let args: Vec<String> = vec!["ps".into(), "--filter".into(), "a b".into()];
    let d = docker(args.clone(), true, "/n").unwrap();
    assert_eq!(d.args, args);
    assert_eq!((d.tool.as_str(), d.var.as_str(), d.value.as_str()), ("docker", "DOCKER_HOST", "unix:///n/run/docker.sock"));
    let k = kubectl(args.clone(), true, "/n/kubeconfig").unwrap();
    assert_eq!(k.args, args);
    assert_eq!((k.var.as_str(), k.value.as_str()), ("KUBECONFIG", "/n/kubeconfig"));
    let h = helm(args.clone(), true, "/c").unwrap();
    assert_eq!((h.tool.as_str(), h.args), ("helm", args));
    assert_eq!(
        helm(vec![], false, "/c").unwrap_err(),
        "the Nebula engine is not running — start it with: nebula up"
    );
    assert_eq!(tool_missing("helm"), "could not run `helm` — is it installed and on your PATH?");
}

#[test]
fn the_spike_is_judged_by_its_mark() {
    assert_eq!((at_least_a_gib(512), at_least_a_gib(2048)), (1024, 2048));
    let p = run("/run", "krun", 2, 512, "/k", "/i");
    assert_eq!(p.spec.mem_mib, 1024);
    assert_eq!(p.console_log, "/run/spike-krun-console.log");
    assert_eq!(p.line, "[spike] backend=krun cpus=2 mem=1024MiB");
    let p = run("/run", "vz", 2, 512, "/k", "/i");
    assert_eq!((p.spec.mem_mib, p.spec.balloon), (512, true));
    let v = verdict("vz", "1.2s", "boot\n NEBULA_SPIKE_OK init=1 \n", "/log");
    assert!(v.passed);
    assert_eq!(
        v.lines,
        vec![
            "SPIKE PASS [vz] boot→poweroff 1.2s",
            "  guest: NEBULA_SPIKE_OK init=1",
            "  console log: /log"
        ]
    );
    let v = verdict("vz", "1s", "a\nb\n", "/log");
    assert_eq!(
        v.failed.as_deref(),
        Some("guest booted but no NEBULA_SPIKE_OK marker found (console: /log)")
    );
    assert_eq!(v.lines, vec!["--- console output (4 bytes) ---", "  a", "  b"]);
}

#[test]
fn kernels_come_in_forms() {
    assert!(matches!(kernel_form(&[0x1f, 0x8b, 9]), KernelForm::Packed { from: 0, to: 3 }));
    assert!(matches!(kernel_form(b"raw"), KernelForm::Raw));
    let mut z = vec![0u8; 64];
    z[0..2].copy_from_slice(b"MZ");
    z[4..8].copy_from_slice(b"zimg");
    z[8..12].copy_from_slice(&32u32.to_le_bytes());
    z[12..16].copy_from_slice(&16u32.to_le_bytes());
    z[0x18..0x1c].copy_from_slice(b"gzip");
    assert!(matches!(kernel_form(&z), KernelForm::Packed { from: 32, to: 48 }));
    z[12..16].copy_from_slice(&64u32.to_le_bytes());
    assert!(matches!(kernel_form(&z), KernelForm::OutOfBounds));
    z[0x18..0x1c].copy_from_slice(b"zstd");
    assert!(matches!(kernel_form(&z), KernelForm::Unsupported { compression } if compression == "zstd"));
    let mut image = vec![0u8; 64];
    image[0x38..0x3c].copy_from_slice(b"ARM\x64");
    assert!(is_arm64_image(&image) && !is_arm64_image(&image[..63]) && !is_arm64_image(&[0; 64]));
    assert!(matches!(ensure_kernel(&Some("/k".into()), true, false, false), KernelFrom::Named(p) if p == "/k"));
    assert!(matches!(
        ensure_kernel(&Some("/k".into()), false, true, true),
        KernelFrom::Missing(m) if m == "NEBULA_SPIKE_KERNEL=/k not found"
    ));
    assert!(matches!(ensure_kernel(&None, false, true, true), KernelFrom::Cached));
    assert!(matches!(ensure_kernel(&None, false, false, true), KernelFrom::Unpack));
    assert!(matches!(ensure_kernel(&None, false, false, false), KernelFrom::Download));
    let with = build_spike_initramfs(b"init".to_vec(), Some(b"ko".to_vec()));
    let without = build_spike_initramfs(b"init".to_vec(), None);
    assert!(with.len() > without.len() && with.len() % 4 == 0);
}

fn opts(share_cwd: bool, cmd: &[&str]) -> SandboxOpts {
    SandboxOpts { cpus: 1, mem: 512, share_cwd, cmd: cmd.iter().map(|s| s.to_string()).collect() }
}

#[test]
fn sandboxes_run_one_command() {
    assert_eq!(
        shell_join(&vec!["uname".into(), "-a".into(), "it's".into(), "a b".into()]),
        "uname -a 'it'\\''s' 'a b'"
    );
    let s = script(&opts(false, &["ls", "/"]));
    assert!(s.starts_with("#!/bin/sh\nexport PATH=") && s.ends_with("\nls /\n"), "{s}");
    assert!(script(&opts(true, &["ls"])).contains("mount -t virtiofs cwd /workdir"));
    let spec = sandbox_spec(&opts(true, &["ls"]), "sbx-1", "/k", "/i", "/c", "/cwd");
    assert_eq!((spec.name.as_str(), spec.mem_mib, spec.shares.len()), ("sbx-1", 1024, 1));
    assert_eq!(spec.shares[0].host_path, "/cwd");
    let o = sandbox_output("noise\nNEBULA_SANDBOX_BEGIN\nhello\nNEBULA_SANDBOX_END=3\nafter\n");
    assert_eq!(o.lines, vec!["hello"]);
    assert_eq!(o.exit_code, 3);
    assert_eq!(sandbox_output("NEBULA_SANDBOX_END=x\n").exit_code, 1);
    assert_eq!(sandbox_output("").exit_code, 0);
    let a = sandbox_initramfs(b"i".to_vec(), b"b".to_vec(), "s");
    assert_eq!(a.len() % 4, 0);
}

#[test]
fn the_first_bundle_with_docker_is_used() {
    let at = bundle_candidates("/opt/nebula/bin/nebula");
    assert_eq!(
        at,
        vec![
            "/opt/nebula/bin/../Resources/resources/bin",
            "/opt/nebula/bin/resources/bin",
            "/opt/nebula/bin/nebula/ui/src-tauri/resources/bin",
            "/opt/nebula/bin/ui/src-tauri/resources/bin",
            "/opt/nebula/ui/src-tauri/resources/bin",
            "/opt/ui/src-tauri/resources/bin",
            "/ui/src-tauri/resources/bin",
        ]
    );
    let with = |found: &[usize]| {
        let has: Vec<bool> = (0..at.len()).map(|i| found.contains(&i)).collect();
        bundled_bin_dir(&at, &has)
    };
    assert_eq!(with(&[]), None);
    assert_eq!(with(&[4, 1, 6]), Some(1));
    assert_eq!(with(&[6]), Some(6));
    assert!(bundle_candidates("").is_empty());
}

use nebula::backend::{check_supported, BackendKind, VmState, WorkerControl};
use nebula::branch::{branch, BranchAction, BranchEvent, BranchMachine};
use nebula::creation::{create, sizes_fit, CreateFacts, CreateOpts, FsStep, Rootfs};
use nebula::detach::Stdio;
use nebula::krun::{
    balloon_set_guest_mib, check, dylib_path, parse_mac, passt_path, run_worker, vsock_path, worker_state, CtlCall,
    CtlFeatures, CtlLine, CtlStep, Features, KrunCall, Os, Surroundings, WorkerCtl, WorkerStatus,
};
use nebula::lifecycle::{
    clone_file, list, live_pid, parse_pid, physical_size_mb, pid_record, random_mac, rm, start, start_wait, start_with, stop,
    stop_wait, worker, AgentHealth, Found, HostKind, StartDecision, StartEffect, StartOutcome, StartStep, Started, StopOutcome,
    StopStep, VesselSummary,
};
use nebula::proto::{Health, MemStats};
use nebula::snapshots::{
    branch_names, branch_spec, disk_clones, restore, retarget_spec, snapshot, snapshot_memory_state,
    snapshot_mode, snapshot_outcome, snapshot_rm, snapshots, state_path, DiskOnlyReason, Event, RestoreAction,
    RestoreEvent, RestoreMachine, RestoreOutcome, SnapAction, SnapMachine, SnapMode, SnapshotInfo,
    SnapshotOutcome,
};
use nebula::spec::{BootSpec, ConsoleSpec, DiskSpec, HostFs, NetSpec, ShareSpec, VmSpec, VsockPortMap};
use nebula::vessel_cli::{
    branched_line, created_line, exec, info, ls_lines, new, reset, restored_lines, snapshot_lines,
    snapshots_lines, started_lines, stopped_line, ExecDecision, Live, NewError, NewOpts, ResetError, ResetStep,
    RootfsFrom,
};
use nebula::vessels::{
    dir_of, disk_images, is_engine, mount_request, parse_mounts, parse_volumes, snap_dir, sort_names,
    validate_label, validate_name, vessels_root, Lookup, VesselError,
};
use nebula::vz::{build_config, is_available, vm_state, VzShare, VzState};

fn s(v: &[&str]) -> Vec<String> {
    v.iter().map(|x| x.to_string()).collect()
}

#[test]
fn names_are_judged() {
    assert!(is_engine("vessel") && !is_engine("web"));
    assert!(validate_name("web_1-a").is_ok());
    assert_eq!(
        validate_name("a b").unwrap_err().message(),
        "vessel names must be non-empty [a-zA-Z0-9_-], got `a b`"
    );
    assert!(matches!(validate_name(""), Err(VesselError::BadName { .. })));
    assert!(matches!(validate_name("vessel"), Err(VesselError::Engine { .. })));
    assert_eq!(vessels_root("/n"), "/n/vessels");
    assert_eq!(dir_of("/n", "web").unwrap(), "/n/vessels/web");
    assert!(validate_label("v1.0-a").is_ok());
    assert!(matches!(validate_label("a/b"), Err(VesselError::BadLabel { .. })));
    assert_eq!(snap_dir("/d", "l"), "/d/snapshots/l");
}

#[test]
fn disks_stand_in_device_order() {
    assert_eq!(sort_names(s(&["b", "a", "ab"])), vec!["a", "ab", "b"]);
    assert_eq!(
        disk_images(&s(&["vol-z.img", "console.log", "vol-a.img", "vol-x"])),
        vec!["rootfs.img", "data.img", "vol-a.img", "vol-z.img"]
    );
    assert_eq!(
        disk_clones(&s(&["vol-a.img", "rootfs.img"]), "/f", "/t"),
        vec![
            ("/f/rootfs.img".to_string(), "/t/rootfs.img".to_string()),
            ("/f/vol-a.img".to_string(), "/t/vol-a.img".to_string()),
        ]
    );
}

#[test]
fn volumes_are_parsed() {
    assert_eq!(
        parse_volumes(&s(&["cache:4", "db:2048"])).unwrap(),
        vec![("cache".to_string(), 4), ("db".to_string(), 2048)]
    );
    let err = |v: &[&str]| parse_volumes(&s(v)).unwrap_err().message();
    assert_eq!(err(&["cache"]), "--volume wants name:GiB, got `cache`");
    assert_eq!(err(&["Up:1"]), "volume names must be [a-z0-9_-] (max 32 chars), got `Up`");
    assert_eq!(err(&["data:1"]), "`data` is the built-in data disk (size it with --disk)");
    assert_eq!(err(&["a:1", "a:2"]), "duplicate volume `a`");
    assert_eq!(err(&["a:x"]), "volume `a`: bad size `x` (GiB)");
    assert_eq!(err(&["a:0"]), "volume `a`: size must be 1..=2048 GiB");
    assert_eq!(
        err(&["a:1", "b:1", "c:1", "d:1", "e:1", "f:1", "g:1", "h:1", "i:1"]),
        "at most 8 extra volumes per vessel"
    );
}

#[test]
fn mounts_are_parsed() {
    assert_eq!(mount_request("/a:ro"), ("/a".to_string(), true));
    assert_eq!(mount_request("/a:rw"), ("/a".to_string(), false));
    assert_eq!(mount_request("/a:b"), ("/a:b".to_string(), false));
    let at = |p: Option<&str>, is_dir| Lookup { canonical: p.map(String::from), is_dir };
    assert_eq!(
        parse_mounts(
            &s(&["/a:ro", "/link", "/b"]),
            &vec![at(Some("/a"), true), at(Some("/a"), true), at(Some("/b"), true)]
        )
        .unwrap(),
        vec![("/a".to_string(), true), ("/b".to_string(), false)]
    );
    assert_eq!(
        parse_mounts(&s(&["/x"]), &vec![at(None, false)]).unwrap_err().message(),
        "--mount path does not exist: `/x`"
    );
    assert_eq!(
        parse_mounts(&s(&["/x"]), &vec![at(Some("/x"), false)]).unwrap_err().message(),
        "--mount wants a directory, got `/x`"
    );
}

fn opts() -> CreateOpts {
    CreateOpts {
        name: "web".into(),
        cpus: 2,
        mem: 512,
        gpu: false,
        data_gib: 4,
        backend: "krun".into(),
        volumes: vec![("cache".into(), 1)],
        mounts: vec![("/a".into(), true)],
    }
}

fn facts() -> CreateFacts {
    CreateFacts {
        macos: false,
        kernel: true,
        pristine: true,
        live_rootfs: true,
        own_rootfs: false,
        own_data: false,
        mac: Some("02:00:00:00:00:01".into()),
        machine_id: Some("id".into()),
    }
}

#[test]
fn a_vessel_is_created() {
    let p = create(&opts(), Rootfs::BaseImage, "/n", &facts());
    let c = p.result.unwrap();
    assert_eq!(c.dir, "/n/vessels/web");
    assert_eq!((c.spec.name.as_str(), c.spec.mem_mib), ("vessel-web", 1024));
    assert_eq!(c.spec.disks.len(), 3);
    assert_eq!(c.spec.disks[2].path, "/n/vessels/web/vol-cache.img");
    assert!(c.spec.mac.is_none());
    let BootSpec::Kernel { cmdline, .. } = &c.spec.boot;
    assert!(
        cmdline.ends_with("NEBULA_AGENT_ONLY=1 NEBULA_VOLUMES=cache NEBULA_SHARES=mount0=2f61:ro"),
        "{cmdline}"
    );
    assert!(p.steps.iter().any(|s| matches!(s, FsStep::Clone { from, to }
        if from == "/n/images/rootfs-pristine.img" && to == "/n/vessels/web/rootfs.img")));
    assert!(p.steps.iter().any(|s| matches!(s, FsStep::Sparse { path, len }
        if path == "/n/vessels/web/data.img" && *len == 4 * 1024 * 1024 * 1024)));
}

#[test]
fn creation_is_refused_for_a_reason() {
    let err = |o: CreateOpts, r: Rootfs, f: CreateFacts| create(&o, r, "/n", &f).result.unwrap_err().message();
    let o = |b: &str, gpu| CreateOpts { backend: b.into(), gpu, ..opts() };
    assert_eq!(
        err(o("kvm", false), Rootfs::BaseImage, facts()),
        "--backend must be `krun` or `vz`, got `kvm`"
    );
    assert!(err(o("vz", false), Rootfs::BaseImage, facts()).contains("macOS-only"));
    assert!(err(o("vz", true), Rootfs::BaseImage, CreateFacts { macos: true, ..facts() }).contains("libkrun-only"));
    assert_eq!(
        err(opts(), Rootfs::BaseImage, CreateFacts { kernel: false, ..facts() }),
        "guest kernel missing — run `nebula up` once first"
    );
    assert_eq!(
        err(opts(), Rootfs::BaseImage, CreateFacts { pristine: false, live_rootfs: false, ..facts() }),
        "guest images missing — run `nebula up` once first"
    );
    let vast = CreateOpts { data_gib: u64::MAX, ..o("kvm", false) };
    assert!(err(vast, Rootfs::BaseImage, facts()).starts_with("--backend must be"));
    assert!(sizes_fit(&opts()));
    assert!(sizes_fit(&CreateOpts { data_gib: (1 << 34) - 1, ..opts() }));
    assert!(!sizes_fit(&CreateOpts { data_gib: 1 << 34, ..opts() }));
    assert!(!sizes_fit(&CreateOpts { volumes: vec![("a".into(), 1), ("b".into(), 1 << 34)], ..opts() }));
    assert_eq!(err(opts(), Rootfs::Prepared, facts()), "prepared rootfs.img missing in /n/vessels/web");
    let vz = create(&o("vz", false), Rootfs::BaseImage, "/n", &CreateFacts { macos: true, ..facts() });
    let spec = vz.result.unwrap().spec;
    assert!(spec.vsock && spec.mac.is_some() && spec.machine_id.is_some());
}

fn spec(backend: Option<&str>) -> VmSpec {
    VmSpec {
        name: "vessel-web".into(),
        cpus: 2,
        mem_mib: 1024,
        boot: BootSpec::Kernel { kernel: "/k".into(), initramfs: None, cmdline: "c".into() },
        disks: vec![
            DiskSpec { path: "/d/rootfs.img".into(), read_only: false },
            DiskSpec { path: "/d/data.img".into(), read_only: false },
            DiskSpec { path: "/d/vol-db.img".into(), read_only: true },
        ],
        shares: vec![ShareSpec { tag: "mount0".into(), host_path: "/a".into(), read_only: false }],
        net: NetSpec::Nat,
        vsock: false,
        console: ConsoleSpec::File("/d/console.log".into()),
        balloon: false,
        rng: true,
        rosetta: false,
        gpu: true,
        control_path: Some("/d/vmm.sock".into()),
        restore_path: None,
        vsock_ports: vec![VsockPortMap { port: 1024, host_path: "/d/agent.sock".into() }],
        backend: backend.map(String::from),
        mac: Some("02:aa:bb:cc:dd:ee".into()),
        machine_id: None,
    }
}

#[test]
fn processes_are_found_by_their_file() {
    assert_eq!(parse_pid(" 42\n"), Some(42));
    assert_eq!(parse_pid("-7"), Some(-7));
    assert_eq!(parse_pid("99999999999"), None);
    assert_eq!(live_pid(&Some("42".into()), true), Some(42));
    assert_eq!(live_pid(&Some("42".into()), false), None);
    assert_eq!(live_pid(&None, true), None);
    assert_eq!(physical_size_mb(Some(3 << 20), Some(9 << 20)), 3);
    assert_eq!(physical_size_mb(None, Some(9 << 20)), 9);
    assert_eq!(physical_size_mb(None, None), 0);
    assert_eq!(random_mac(&[0, 1, 0xab, 3, 0xff]), "02:00:01:ab:03:ff");
    assert_eq!((clone_file(true, false), clone_file(false, true), clone_file(false, false)), (None, Some("-c"), Some("--reflink=auto")));
}

#[test]
fn a_second_start_finds_the_first() {
    let host = HostKind { macos: false, krun_state: false };
    let first = start("dev", spec(None), live_pid(&None, false).is_some(), host);
    assert_eq!(
        first.effects(),
        vec![
            StartEffect::FreshConsoleLog,
            StartEffect::FreshWorkerLog,
            StartEffect::SpawnWorker,
            StartEffect::WritePid
        ]
    );
    let pid_file = Some(pid_record(4711));
    assert_eq!(pid_file.as_deref(), Some("4711"));
    let again = start("dev", spec(None), live_pid(&pid_file, true).is_some(), host);
    assert!(matches!(again, StartDecision::AlreadyRunning));
    assert!(again.effects().is_empty());
    for name in ["vessel", "default", "engine", "nebula"] {
        let refused = start(name, spec(None), false, host);
        assert!(matches!(refused, StartDecision::Refuse(_)), "{name}");
        assert!(refused.effects().is_empty());
    }
}

#[test]
fn vessels_are_started_by_workers() {
    let host = HostKind { macos: false, krun_state: false };
    assert!(matches!(start_with("dev", spec(None), true, &None, host), StartDecision::AlreadyRunning));
    match start_with("dev", spec(None), false, &Some("/st".into()), host) {
        StartDecision::Refuse(e) => assert!(e.message().starts_with("memory-state restore for krun")),
        d => panic!("{d:?}"),
    }
    let able = HostKind { macos: false, krun_state: true };
    match start_with("dev", spec(None), false, &Some("/st".into()), able) {
        StartDecision::Launch { vz: false, spec } => assert_eq!(spec.restore_path.as_deref(), Some("/st")),
        d => panic!("{d:?}"),
    }
    match start_with("dev", spec(Some("vz")), false, &Some("/st".into()), host) {
        StartDecision::Launch { vz: true, spec } => assert!(spec.restore_path.is_none()),
        d => panic!("{d:?}"),
    }
    let w = worker("/nebula", "{}", "/d", true, &Some("/st".into()));
    assert_eq!(w.args, vec!["vz-worker", "--spec", "{}", "--control", "/d/vmm.sock", "--restore", "/st"]);
    let w = worker("/nebula", "{}", "/d", false, &None);
    assert_eq!(w.args, vec!["krun-worker", "--spec", "{}"]);
    assert!(matches!(w.stdout, Stdio::File(p) if p == "/d/console.log"));
}

#[test]
fn a_start_is_waited_for() {
    let h = || Some(AgentHealth { kernel: "6.6".into(), agent_version: "1".into() });
    match start_wait("web", "/d", false, true, h(), true, 250) {
        StartStep::Up(s) => assert_eq!((s.resumed, s.boot_ms, s.kernel.as_str()), (true, 250, "6.6")),
        o => panic!("{o:?}"),
    }
    assert!(matches!(start_wait("web", "/d", false, false, None, false, 500), StartStep::Again));
    match start_wait("web", "/d", true, false, None, false, 501) {
        StartStep::Fail(e) => assert_eq!(e.message(), "vessel `web` worker exited — see /d/worker.log"),
        o => panic!("{o:?}"),
    }
    match start_wait("web", "/d", true, false, None, true, 20_001) {
        StartStep::Fail(e) => {
            assert_eq!(e.message(), "vessel `web` did not become healthy within 20s — see /d/console.log")
        }
        o => panic!("{o:?}"),
    }
    assert!(matches!(stop_wait(false, 5), StopStep::Gone));
    assert!(matches!(stop_wait(true, 5), StopStep::Again));
    assert!(matches!(stop_wait(true, 10_000), StopStep::Kill));
    assert!(matches!(stop(None, StopStep::Gone), StopOutcome::NotRunning));
    assert!(matches!(stop(Some(1), StopStep::Gone), StopOutcome::Stopped));
    assert!(matches!(stop(Some(1), StopStep::Kill), StopOutcome::Forced));
}

#[test]
fn vessels_are_removed_and_listed() {
    assert!(rm("/n", "web", true, true, true).unwrap().stop_first);
    assert_eq!(
        rm("/n", "web", true, true, false).unwrap_err().message(),
        "vessel `web` is running — stop it first or use --force"
    );
    assert_eq!(rm("/n", "web", false, false, false).unwrap_err().message(), "no vessel named `web`");
    let l = list(&vec![
        Found { name: "web".into(), spec: Some(spec(None)), running: true },
        Found { name: "db".into(), spec: Some(spec(Some("vz"))), running: false },
        Found { name: "junk".into(), spec: None, running: false },
    ]);
    let names: Vec<(&str, &str)> = l.iter().map(|v| (v.name.as_str(), v.backend.as_str())).collect();
    assert_eq!(names, vec![("db", "vz"), ("web", "krun")]);
}

#[test]
fn snapshots_capture_what_they_can() {
    let host = HostKind { macos: false, krun_state: true };
    let mode = |m, running| snapshot_mode("web", &None, m, running, host).unwrap();
    assert_eq!(mode(SnapMode::Auto, true), (true, DiskOnlyReason::Requested));
    assert_eq!(mode(SnapMode::Auto, false), (false, DiskOnlyReason::NotRunning));
    assert_eq!(mode(SnapMode::DiskOnly, true), (false, DiskOnlyReason::Requested));
    let vz = Some("vz".to_string());
    assert_eq!(
        snapshot_mode("web", &vz, SnapMode::Auto, true, host).unwrap(),
        (false, DiskOnlyReason::BackendUnsupported)
    );
    assert_eq!(
        snapshot_mode("web", &vz, SnapMode::Memory, true, host).unwrap_err().message(),
        "memory snapshots aren't supported for vz-backed vessels on this platform yet"
    );
    assert!(matches!(
        snapshot_mode("web", &None, SnapMode::Memory, false, host),
        Err(VesselError::NotLive { .. })
    ));
    assert_eq!((state_path("/s", true).as_str(), state_path("/s", false).as_str()), ("/s/memory.vzstate", "/s/memory.krun"));
    assert_eq!(snapshot_memory_state("/s", true, true).as_deref(), Some("/s/memory.vzstate"));
    assert_eq!(snapshot_memory_state("/s", false, true).as_deref(), Some("/s/memory.krun"));
    assert_eq!(snapshot_memory_state("/s", false, false), None);
    let d = snapshot("/n", "web", "l", true, false).unwrap();
    assert_eq!((d.dir.as_str(), d.sdir.as_str()), ("/n/vessels/web", "/n/vessels/web/snapshots/l"));
    assert!(matches!(snapshot("/n", "web", "l", true, true), Err(VesselError::SnapshotExists { .. })));
    assert_eq!(snapshot_rm("/n", "web", "l", false).unwrap_err().message(), "no snapshot `web@l`");
    assert_eq!(restore("/n", "web", "l", true).unwrap().sdir, "/n/vessels/web/snapshots/l");
    let l = snapshots(&s(&["b", "a"]), &vec![true, false]);
    let l: Vec<(&str, bool)> = l.iter().map(|i| (i.label.as_str(), i.memory)).collect();
    assert_eq!(l, vec![("a", false), ("b", true)]);
    assert!(matches!(
        snapshot_outcome(true, DiskOnlyReason::Requested, 5, 9),
        SnapshotOutcome::Memory { ms: 5, state_mb: 9 }
    ));
}

#[test]
fn a_memory_snapshot_resumes_the_vessel_whatever_happens() {
    let mut m = SnapMachine::new(true, true);
    for want in ["MakeDir", "Connect", "Pause", "Save", "CloneDisks", "Resume", "Finish"] {
        assert_eq!(format!("{:?}", m.next(Event::Done)), want);
    }
    let mut m = SnapMachine::new(true, true);
    for _ in 0..4 {
        m.next(Event::Done);
    }
    assert!(matches!(m.next(Event::Failed("disk full".into())), SnapAction::Resume));
    assert!(matches!(m.next(Event::Done), SnapAction::RemoveDir));
    match m.next(Event::Done) {
        SnapAction::Fail(e) => {
            assert_eq!(e.message(), "memory snapshot failed (vessel resumed unharmed): disk full")
        }
        a => panic!("{a:?}"),
    }
}

#[test]
fn a_disk_snapshot_stops_and_starts() {
    let mut m = SnapMachine::new(false, true);
    for want in ["Stop", "MakeDir", "CloneDisks", "Start", "Finish"] {
        assert_eq!(format!("{:?}", m.next(Event::Done)), want);
    }
    let mut m = SnapMachine::new(false, false);
    for want in ["MakeDir", "CloneDisks", "Finish"] {
        assert_eq!(format!("{:?}", m.next(Event::Done)), want);
    }
}

#[test]
fn a_restore_falls_back_to_a_cold_boot() {
    let mut m = RestoreMachine::new(true, true);
    assert!(matches!(m.next(RestoreEvent::Done), RestoreAction::Stop));
    assert!(matches!(m.next(RestoreEvent::Done), RestoreAction::CloneDisks));
    assert!(matches!(m.next(RestoreEvent::Done), RestoreAction::Resume));
    assert!(matches!(m.next(RestoreEvent::Failed("no".into())), RestoreAction::Start));
    assert!(matches!(
        m.next(RestoreEvent::Done),
        RestoreAction::Finish(RestoreOutcome::ColdBootFallback { resume_error }) if resume_error == "no"
    ));
    let mut m = RestoreMachine::new(false, true);
    m.next(RestoreEvent::Done);
    m.next(RestoreEvent::Done);
    assert!(matches!(m.next(RestoreEvent::Done), RestoreAction::Start));
    assert!(matches!(
        m.next(RestoreEvent::Done),
        RestoreAction::Finish(RestoreOutcome::DiskRestore { restarted: true })
    ));
    let mut m = RestoreMachine::new(true, false);
    m.next(RestoreEvent::Done);
    m.next(RestoreEvent::Done);
    assert!(matches!(m.next(RestoreEvent::Done), RestoreAction::Finish(RestoreOutcome::LiveResume)));
}

#[test]
fn branches_are_named_and_retargeted() {
    assert_eq!(branch_names("b", 1), vec!["b"]);
    assert_eq!(branch_names("b", 3), vec!["b-1", "b-2", "b-3"]);
    let r = retarget_spec(spec(None), "/x");
    assert_eq!(r.disks[2].path, "/x/vol-db.img");
    assert!(matches!(&r.console, ConsoleSpec::File(p) if p == "/x/console.log"));
    assert_eq!(r.vsock_ports[0].host_path, "/x/agent.sock");
    assert_eq!(r.control_path.as_deref(), Some("/x/vmm.sock"));
    assert_eq!(r.shares[0].host_path, "/a");
    let own = branch_spec(spec(Some("vz")), "b", "/x", false, Some("02:new".into()), Some("id2".into()));
    assert_eq!((own.name.as_str(), own.mac.as_deref(), own.machine_id.as_deref()), ("vessel-b", Some("02:new"), Some("id2")));
    let live = branch_spec(spec(Some("vz")), "b", "/x", true, Some("02:new".into()), None);
    assert_eq!(live.mac.as_deref(), Some("02:aa:bb:cc:dd:ee"));
}

#[test]
fn branches_come_up_one_by_one() {
    let mut m = BranchMachine::new(false, false, true, s(&["b-1", "b-2"]));
    assert!(matches!(m.next(BranchEvent::Done), BranchAction::StopSource));
    assert!(matches!(m.next(BranchEvent::Done), BranchAction::CloneSource));
    assert!(matches!(m.next(BranchEvent::Done), BranchAction::StartSource));
    for n in ["b-1", "b-2"] {
        assert!(matches!(m.next(BranchEvent::Done), BranchAction::LookUp(x) if x == n));
        assert!(matches!(m.next(BranchEvent::Done), BranchAction::Place(x) if x == n));
        assert!(matches!(m.next(BranchEvent::Done), BranchAction::Start(x) if x == n));
    }
    assert!(matches!(m.next(BranchEvent::Done), BranchAction::RemoveSource));
    assert!(matches!(m.next(BranchEvent::Done), BranchAction::Finish));
    let o = m.finish(9);
    assert_eq!((o.vessels.len(), o.from_memory, o.ms), (2, false, 9));
}

#[test]
fn a_live_branch_may_boot_cold() {
    let mut m = BranchMachine::new(true, true, false, s(&["b"]));
    assert!(matches!(m.next(BranchEvent::Done), BranchAction::LookUp(_)));
    assert!(matches!(m.next(BranchEvent::Done), BranchAction::Place(_)));
    assert!(matches!(m.next(BranchEvent::Done), BranchAction::Resume(_)));
    assert!(matches!(m.next(BranchEvent::Failed("bad".into())), BranchAction::Start(_)));
    assert!(matches!(m.next(BranchEvent::Done), BranchAction::Finish));
    let o = m.finish(1);
    assert_eq!(o.vessels[0].fallback_error.as_deref(), Some("bad"));
    assert!(!o.vessels[0].live && o.from_memory);
    let mut m = BranchMachine::new(true, true, false, s(&["b"]));
    m.next(BranchEvent::Done);
    match m.next(BranchEvent::Exists) {
        BranchAction::Fail(e) => assert_eq!(e.message(), "vessel `b` already exists"),
        a => panic!("{a:?}"),
    }
    assert_eq!(branch("/n", "web", &Some("l".into()), true, true, true).unwrap().dir, "/n/vessels/web");
    assert_eq!(
        branch("/n", "web", &Some("l".into()), true, true, false).unwrap_err().message(),
        "no snapshot `web@l`"
    );
}

#[test]
fn libkrun_is_looked_for() {
    let fs = HostFs { files: s(&["/o/krun", "/h/.local/bin/passt", "/p/passt"]), dirs: vec![] };
    assert_eq!(dylib_path(&Some("/o/krun".into()), &vec![], Os::Linux, &fs).unwrap(), "/o/krun");
    assert_eq!(
        dylib_path(&Some("/none".into()), &vec![], Os::Linux, &fs).unwrap_err().message(),
        "file not found: /none"
    );
    assert!(dylib_path(&None, &s(&["/x"]), Os::Macos, &fs)
        .unwrap_err()
        .message()
        .contains("libkrun dylib not found"));
    assert_eq!(passt_path(&None, "/q:/p", &None, &fs).as_deref(), Some("/p/passt"));
    assert_eq!(passt_path(&None, "/q", &Some("/h".into()), &fs).as_deref(), Some("/h/.local/bin/passt"));
    assert_eq!(passt_path(&Some("/none".into()), "/p", &None, &fs), None);
    assert_eq!(parse_mac(&Some("02:aa:bb:cc:dd:ee".into())), Some(vec![2, 0xaa, 0xbb, 0xcc, 0xdd, 0xee]));
    assert_eq!(parse_mac(&Some("02:aa".into())), None);
    assert_eq!(worker_state(WorkerStatus::Alive), VmState::Running);
    assert_eq!(worker_state(WorkerStatus::Exited { success: false }), VmState::Failed);
    assert_eq!(vsock_path(&spec(None).vsock_ports, 1024).unwrap(), "/d/agent.sock");
    assert!(vsock_path(&spec(None).vsock_ports, 7).is_err());
    assert!(!balloon_set_guest_mib().message().is_empty());
    assert!(check("krun_x", 0).is_ok());
    assert_eq!(check("krun_x", -22).unwrap_err().message(), "backend `krun` failed: krun_x failed: -22");
}

fn able() -> Features {
    Features { disks: true, virtiofs: true, gpu: true, net_unixstream: true, net_usernet: true, restore: true }
}

fn around() -> Surroundings {
    Surroundings { debug: false, force_passt: false, windows: false, kernel_format: 0, passt: None }
}

#[test]
fn the_worker_configures_then_enters() {
    let p = run_worker(&spec(None), able(), &around());
    assert!(p.missing.is_none());
    let names: Vec<String> = p
        .calls
        .iter()
        .map(|c| {
            let t = format!("{c:?}");
            t.split([' ', '(']).next().unwrap().to_string()
        })
        .collect();
    assert_eq!(
        names,
        vec![
            "SetLogLevel",
            "CreateCtx",
            "SetVmConfig",
            "SetKernel",
            "AddConsole",
            "AddNetUsernet",
            "AddDisk",
            "AddDisk",
            "AddDisk",
            "AddVirtiofs",
            "AddVsockPort",
            "SetGpuOptions",
            "ServeControl",
            "StartEnter",
        ]
    );
    assert!(matches!(&p.calls[5], KrunCall::AddNetUsernet(m) if m == &vec![2, 0xaa, 0xbb, 0xcc, 0xdd, 0xee]));
    assert!(matches!(&p.calls[8], KrunCall::AddDisk { id, read_only: true, .. } if id == "disk2"));
}

#[test]
fn what_a_build_lacks_is_told() {
    let lacks = |f: Features, e: Surroundings| run_worker(&spec(None), f, &e).missing.unwrap().message();
    assert_eq!(
        lacks(Features { disks: false, ..able() }, around()),
        "backend `krun` failed: this libkrun build lacks block devices (rebuild with BLK=1)"
    );
    assert!(lacks(Features { virtiofs: false, ..able() }, around()).contains("lacks virtiofs"));
    assert!(lacks(Features { gpu: false, ..able() }, around()).contains("lacks GPU support"));
    let passt = Surroundings { force_passt: true, ..around() };
    assert!(lacks(able(), passt).contains("passt not found"));
    let passt = Surroundings { force_passt: true, ..around() };
    assert!(lacks(Features { net_unixstream: false, ..able() }, passt).contains("built with NET=1"));
    let windows = Surroundings { windows: true, ..around() };
    assert!(lacks(Features { net_usernet: false, ..able() }, windows).contains("krun.dll built with NET=1"));
    let mut s = spec(None);
    s.restore_path = Some("/st".into());
    let p = run_worker(&s, Features { restore: false, ..able() }, &around());
    assert!(p.missing.unwrap().message().contains("krun_set_restore"));
    assert!(!p.calls.iter().any(|c| matches!(c, KrunCall::StartEnter)));
}

#[test]
fn the_worker_is_controlled() {
    let f = CtlFeatures { pause: true, resume: true, save: false };
    let mut c = WorkerCtl::new();
    assert!(matches!(c.line(CtlLine::Request(WorkerControl::Pause), f), CtlStep::Pause));
    assert!(c.called(CtlCall::Pause, 0).ok);
    let state = |c: &WorkerCtl| match c.line(CtlLine::Request(WorkerControl::State), f) {
        CtlStep::Reply(r) => r.state.unwrap(),
        o => panic!("{o:?}"),
    };
    assert_eq!(state(&c), "paused");
    let r = c.called(CtlCall::Resume, -1);
    assert_eq!(r.error.as_deref(), Some("krun_vm_resume failed: -1"));
    assert_eq!(state(&c), "paused");
    assert!(c.called(CtlCall::Resume, 0).ok);
    assert_eq!(state(&c), "running");
    match c.line(CtlLine::Request(WorkerControl::Save { path: "/x".into() }), f) {
        CtlStep::Reply(r) => {
            assert_eq!(r.error.as_deref(), Some("this libkrun build has no snapshot-save support"))
        }
        o => panic!("{o:?}"),
    }
    match c.line(CtlLine::Bad("eof".into()), f) {
        CtlStep::Reply(r) => assert_eq!(r.error.as_deref(), Some("bad control msg: eof")),
        o => panic!("{o:?}"),
    }
}

#[test]
fn virtualization_framework_is_configured() {
    let mut s = spec(Some("vz"));
    s.rosetta = true;
    let c = build_config(&s, true);
    assert_eq!((c.memory_bytes, c.cpus, c.nat), (1024 * 1024 * 1024, 2, true));
    assert_eq!(c.shares.len(), 2);
    assert!(c.shares.iter().any(|x| matches!(x, VzShare::Rosetta)));
    assert_eq!(build_config(&s, false).shares.len(), 1);
    assert_eq!(vm_state(false, VzState::Running), VmState::Created);
    assert_eq!(vm_state(true, VzState::Paused), VmState::Running);
    assert_eq!(vm_state(true, VzState::Error), VmState::Failed);
    assert!(is_available(true).is_ok());
    assert!(is_available(false).is_err());
}

fn new_opts() -> NewOpts {
    NewOpts {
        name: "web".into(),
        cpus: 2,
        mem: 512,
        gpu: true,
        from_image: None,
        rootfs_img: None,
        volumes: s(&["db:4"]),
    }
}

#[test]
fn new_vessels_are_planned() {
    let p = new("/n", &new_opts(), false, false).unwrap();
    assert_eq!((p.dir.as_str(), p.volumes.len()), ("/n/vessels/web", 1));
    assert!(matches!(p.rootfs, RootfsFrom::Base));
    let both = NewOpts { from_image: Some("i".into()), rootfs_img: Some("/r".into()), ..new_opts() };
    assert!(matches!(new("/n", &both, false, true), Err(NewError::BothSources)));
    assert_eq!(
        new("/n", &new_opts(), true, false).unwrap_err().message(),
        "vessel `web` already exists (nebula vessels rm web to recreate)"
    );
    let file = NewOpts { rootfs_img: Some("/r".into()), ..new_opts() };
    assert_eq!(new("/n", &file, false, false).unwrap_err().message(), "no rootfs image at /r");
    assert_eq!(NewError::BothSources.message(), "--from-image and --rootfs-img are mutually exclusive");
    assert_eq!(
        created_line(&new_opts(), &vec![("db".into(), 4)]),
        "created vessel `web` (2 cpus, 1024 MiB, gpu, volumes: /mnt/db (4G))"
    );
}

#[test]
fn lines_about_vessels() {
    let up = StartOutcome::Started(Started {
        resumed: false,
        boot_ms: 250,
        kernel: "6.6".into(),
        agent_version: "1".into(),
    });
    assert_eq!(
        started_lines("web", &up),
        vec!["vessel `web` up in 250ms (kernel 6.6, agent v1)", "  shell: nebula vessels shell web"]
    );
    assert_eq!(started_lines("web", &StartOutcome::AlreadyRunning), vec!["vessel `web` is already running"]);
    assert_eq!(stopped_line("web", StopOutcome::Forced), "vessel `web` stopped (forced)");
    assert_eq!(
        snapshot_lines("web", "l", &SnapshotOutcome::Memory { ms: 1500, state_mb: 9 }, "1.50"),
        vec!["memory snapshot `web@l` taken in 1.50s (9 MiB state, vessel never stopped)"]
    );
    let disk = SnapshotOutcome::DiskOnly { ms: 10, reason: DiskOnlyReason::NotRunning };
    assert_eq!(
        snapshot_lines("web", "l", &disk, "0"),
        vec![
            "note: vessel is stopped — disk-only snapshot (start it to capture memory)",
            "snapshot `web@l` taken in 0s",
        ]
    );
    let infos = vec![
        SnapshotInfo { label: "a".into(), memory: true },
        SnapshotInfo { label: "b".into(), memory: false },
    ];
    assert_eq!(snapshots_lines("web", &infos), vec!["web@a  (disks + memory state)", "web@b"]);
    assert_eq!(
        snapshots_lines("web", &vec![]),
        vec!["no snapshots for `web` (create one: nebula vessels snapshot web <label>)"]
    );
    let (warn, line) = restored_lines("web", "l", &RestoreOutcome::ColdBootFallback { resume_error: "no".into() });
    assert_eq!(
        warn.as_deref(),
        Some("memory-state resume failed (no); cold-booted the restored disks instead")
    );
    assert_eq!(line, "`web` restored to @l");
    let mut m = BranchMachine::new(true, true, false, s(&["b"]));
    for _ in 0..4 {
        m.next(BranchEvent::Done);
    }
    assert_eq!(
        branched_line("web", &Some("l".into()), &m.finish(5), "0.01"),
        "branched 1 vessel(s) from `web@l` in 0.01s (live resume — each woke mid-execution)"
    );
    let v = VesselSummary {
        name: "web".into(),
        running: true,
        cpus: 2,
        mem_mib: 1024,
        gpu: false,
        backend: "krun".into(),
    };
    assert_eq!(
        ls_lines(true, &vec![v]),
        vec![
            format!("{:<14} {:<9} {:>5} {:>9} {:>5}  NOTES", "NAME", "STATE", "CPUS", "MEM", "GPU"),
            format!(
                "{:<14} {:<9} {:>5} {:>9} {:>5}  engine (docker/k8s) — use nebula up/down",
                "vessel", "running", "-", "-", "-"
            ),
            format!("{:<14} {:<9} {:>5} {:>8}M {:>5}  ", "web", "running", 2, 1024, "no"),
        ]
    );
}

#[test]
fn a_vessel_tells_about_itself() {
    let live = Live {
        pid: 7,
        health: Some(Health {
            proto_version: 1,
            agent_version: "1".into(),
            kernel: "6.6".into(),
            uptime_secs: 3,
            ip: None,
        }),
        mem: Some(MemStats {
            total_kib: 4096,
            free_kib: 0,
            available_kib: 1024,
            cached_kib: 0,
            psi_some_avg10: None,
            psi_full_avg10: None,
        }),
    };
    let l = info("/d", "web", &spec(None), &Some(live)).unwrap();
    assert_eq!(
        l,
        vec![
            "vessel:   web",
            "state:    running",
            "pid:      7",
            "kernel:   6.6 (agent v1, up 3s)",
            "memory:   3 / 4 MiB used",
            "cpus:     2",
            "mem:      1024 MiB",
            "backend:  krun",
            "gpu:      yes (virtio-gpu Venus)",
            "disks:    /d/rootfs.img",
            "          /d/data.img",
            "          /d/vol-db.img  -> /mnt/db",
            "console:  /d/console.log",
        ]
    );
    assert_eq!(info("/d", "web", &spec(None), &None).unwrap()[1], "state:    stopped");
}

#[test]
fn a_reset_keeps_the_data() {
    let steps = reset("/n", "web", false, true, true, true).unwrap();
    assert!(matches!(steps.first(), Some(ResetStep::StopVessel)));
    assert!(matches!(steps.last(), Some(ResetStep::StartVessel)));
    assert!(!steps.iter().any(|s| matches!(s, ResetStep::RemoveFile(p) if p.ends_with("data.img"))));
    let steps = reset("/n", "web", true, true, true, false).unwrap();
    assert!(steps.iter().any(|s| matches!(s, ResetStep::EmptyFile(p) if p == "/n/vessels/web/data.img")));
    assert_eq!(
        reset("/n", "web", false, false, true, false).unwrap_err().message(),
        "no pristine image at /n/images/rootfs-pristine.img — run `nebula install-image` once"
    );
    assert!(matches!(reset("/n", "web", false, true, false, false), Err(ResetError::NoVessel(_))));
    let steps = reset("/n", "vessel", true, true, false, true).unwrap();
    assert!(matches!(steps.first(), Some(ResetStep::Say(_)) | Some(ResetStep::StopEngine)));
    assert!(steps.iter().any(|s| matches!(s, ResetStep::RemoveFile(p) if p == "/n/disks/data.img")));
}

#[test]
fn commands_go_to_the_right_place() {
    assert!(matches!(
        exec("web", &vec![], &None, true),
        ExecDecision::Refuse(m) if m == "usage: nebula vessels exec <name> -- <cmd> [args…]"
    ));
    assert!(matches!(exec("vessel", &s(&["ls"]), &None, false), ExecDecision::Engine));
    assert!(matches!(exec("web", &s(&["ls"]), &None, true), ExecDecision::Vessel));
    assert!(matches!(
        exec("web", &s(&["ls"]), &None, false),
        ExecDecision::Refuse(m) if m == "vessel `web` is not running"
    ));
}

#[test]
fn backends_refuse_what_they_lack() {
    let mut s = spec(None);
    (s.gpu, s.rosetta) = (false, false);
    assert!(check_supported(BackendKind::Vz, &s).is_ok() && check_supported(BackendKind::Krun, &s).is_ok());
    s.gpu = true;
    assert!(check_supported(BackendKind::Vz, &s).is_err() && check_supported(BackendKind::Krun, &s).is_ok());
    s.gpu = false;
    s.rosetta = true;
    assert!(check_supported(BackendKind::Vz, &s).is_ok());
    let e = check_supported(BackendKind::Krun, &s).unwrap_err();
    assert!(e.message().contains("Rosetta"), "{}", e.message());
}

use nebula::dates::{civil_from_days, utc_stamp};
use nebula::doc::{copy, get, parse_json, text_field, Doc};
use nebula::guard::{armed, backup, restored, ConfigGuard};
use nebula::double::Double;
use nebula::harness::{baseline_path, csv_row, host_meta, run_dir, FreshUp, HostFacts, Nebula, Summary, CSV_HEADER};
use nebula::memory::{
    balloon_sample, footprint_of, host_footprint_mib, host_free_mib, host_total_mib, meminfo_mib, rss_mib,
    vm_stat_free_mib, vm_xpc_footprint_mib,
    BalloonState, HostOs, MacProcess, Process, Stats,
};
use nebula::proto::MemStats;
use nebula::report::{
    balloon_lines, balloon_section, container_row, container_section, container_series, latest, metric_row,
    newest, report_head, scenario_of, vessel_row, vessel_section, vessel_series, Run, VesselFigures,
};
use nebula::scale::{
    before_vessel, engine_checks, hog_args, image_for, is_healthy, median_doubled, printed_count,
    removal_batches, vessel_launched, vessel_new_args, workload_args, Brk, Launch, Point,
};
use nebula::suite::{
    ceiling_failures, ceiling_hog_mib, concurrent_failures, drift_cycles, drift_failure, exit_code,
    hog_failures, idle_failures, is_reinflated, reinflate, resizes, sawtooth_failures, sawtooth_secs, watch_on,
    Extremes, HogCycle, Reinflate, Settle,
};
use nebula::toml_doc::parse_toml;
use nebula::util::{listed_names, table_names, CmdOut};

fn now() -> u64 {
    std::time::SystemTime::now()
        .duration_since(std::time::UNIX_EPOCH)
        .map(|d| d.as_secs())
        .unwrap_or(0)
}

#[test]
fn stamp_shape() {
    let s = utc_stamp(now());
    assert_eq!(s.len(), 15);
    assert!(s.starts_with("20"));
}

#[test]
fn stamps_are_utc() {
    assert_eq!(utc_stamp(0), "19700101-000000");
    assert_eq!(utc_stamp(951_782_400), "20000229-000000");
    assert_eq!(utc_stamp(1_700_000_000), "20231114-221320");
}

#[test]
fn days_are_civil_dates() {
    assert_eq!(civil_from_days(0), (1970, 1, 1));
    assert_eq!(civil_from_days(-1), (1969, 12, 31));
    assert_eq!(civil_from_days(11_016), (2000, 2, 29));
    assert_eq!(civil_from_days(-719_468), (0, 3, 1));
    // No two days have one date.
    let mut last = civil_from_days(-400);
    for z in -399..400 {
        let d = civil_from_days(z);
        assert!(d > last);
        last = d;
    }
}

fn out(code: Option<i32>, stdout: &str, stderr: &str) -> CmdOut {
    CmdOut {
        code,
        stdout: stdout.into(),
        stderr: stderr.into(),
        timed_out: false,
        elapsed: "5s".into(),
    }
}

#[test]
fn errors_are_told_by_their_end() {
    assert!(out(Some(0), "", "").ok());
    let o = out(Some(3), "", "a\nb\nc\nd\n");
    assert!(!o.ok());
    assert_eq!(o.brief_err(), "exit Some(3): b | c | d");
    assert_eq!(out(None, "", "x").brief_err(), "exit None: x");
    let mut o = out(None, "", "x");
    o.timed_out = true;
    assert!(!o.ok());
    assert_eq!(o.brief_err(), "timed out after 5s");
}

#[test]
fn names_are_read_from_listings() {
    assert_eq!(listed_names(" a \n\n b\n"), vec!["a", "b"]);
    assert_eq!(table_names("NAME STATE\nbt-v1 up\nengine up\nbt-v2 up\n", "bt-v"), vec!["bt-v1", "bt-v2"]);
    assert_eq!(table_names("bt-v0 up", "bt-v"), Vec::<String>::new());
}

#[test]
fn breaks_have_labels() {
    let cases = [
        (Brk::CmdError { detail: "x".into() }, "cmd_error: x"),
        (Brk::Timeout { detail: "y".into() }, "timeout: y"),
        (Brk::GuestOom { new_kills: 2 }, "guest_oom: 2 new kills"),
        (Brk::AgentUnhealthy { detail: "z".into() }, "agent_unhealthy: z"),
        (
            Brk::LatencyBlowup { median_ms: 3000, baseline_ms: 20 },
            "latency_blowup: 3000ms vs baseline 20ms",
        ),
        (Brk::HostLow { free_mib: 9 }, "host_low: 9 MiB free"),
        (Brk::MaxN { n: 7 }, "max_n: reached configured cap 7"),
    ];
    for (b, text) in cases {
        assert_eq!(b.label(), text);
    }
}

#[test]
fn the_cheapest_check_comes_first() {
    assert!(engine_checks(Some(5000), 1, 1, true).is_none());
    assert!(engine_checks(None, 1, 1, true).is_none());
    assert!(matches!(engine_checks(Some(4095), 1, 9, false), Some(Brk::HostLow { free_mib: 4095 })));
    assert!(matches!(engine_checks(Some(5000), 1, 3, false), Some(Brk::GuestOom { new_kills: 2 })));
    assert!(matches!(
        engine_checks(None, 1, 1, false),
        Some(Brk::AgentUnhealthy { detail }) if detail == "status API or guest exec failed"
    ));
}

#[test]
fn a_running_engine_with_an_agent_is_healthy() {
    let d = |s: &str| parse_json(s.as_bytes()).unwrap();
    assert!(is_healthy(&d(r#"{"vmState":"Running","agent":{}}"#)));
    assert!(!is_healthy(&d(r#"{"vmState":"Running","agent":null}"#)));
    assert!(!is_healthy(&d(r#"{"vmState":"Stopped","agent":{}}"#)));
    assert!(!is_healthy(&d(r#"{"vmState":"Running"}"#)));
    assert_eq!(printed_count(" 12\n"), 12);
    assert_eq!(printed_count("none"), 0);
}

#[test]
fn workloads_have_their_arguments() {
    assert_eq!(image_for("nginx"), "nginx:alpine");
    assert_eq!(image_for("idle"), "alpine:3.20");
    let idle = workload_args("idle", 1, "bt-c1");
    assert_eq!(
        idle,
        vec!["run", "-d", "--restart", "no", "--name", "bt-c1", "alpine:3.20", "sleep", "infinity"]
    );
    assert!(!workload_args("nginx", 9, "n").contains(&"-p".to_string()));
    assert!(workload_args("nginx", 10, "n").contains(&"127.0.0.1::80".to_string()));
    let hog = workload_args("hog:64m", 1, "h");
    assert!(hog.contains(&"--shm-size=96m".to_string()));
    assert_eq!(
        hog.last().unwrap(),
        "dd if=/dev/zero of=/dev/shm/h bs=1M count=64 status=none && exec sleep infinity"
    );
    assert!(workload_args("hog:lots", 1, "h").contains(&"--shm-size=288m".to_string()));
    assert_eq!(
        hog_args("h", 2048, 15).last().unwrap(),
        "dd if=/dev/zero of=/dev/shm/h bs=1M count=2048 status=none && sleep 15"
    );
    assert_eq!(
        vessel_new_args("bt-v0", "krun", 1024, 4),
        vec!["new", "bt-v0", "--backend", "krun", "--mem", "1024", "--disk", "4"]
    );
}

#[test]
fn containers_go_in_batches_of_fifty() {
    let names: Vec<String> = (0..101).map(|i| format!("c{i}")).collect();
    let b = removal_batches(&names);
    assert_eq!(b.iter().map(|v| v.len()).collect::<Vec<_>>(), vec![52, 52, 3]);
    assert_eq!(&b[2], &vec!["rm", "-f", "c100"]);
}

#[test]
fn medians_are_of_the_middle() {
    assert_eq!(median_doubled(&vec![3, 1, 2]), 4);
    assert_eq!(median_doubled(&vec![4, 1, 2, 3]), 5);
    assert_eq!(median_doubled(&vec![]), 0);
}

#[test]
fn half_a_failed_batch_ends_a_point() {
    let mut p = Point::new(4, 100);
    assert!(p.goes_on());
    assert!(p.launched(Launch::Up, 5).is_none());
    let refused = || Launch::Refused { timed_out: false, brief: "exit Some(1): no".into() };
    assert!(p.launched(refused(), 5).is_none());
    assert!(matches!(
        p.launched(refused(), 5),
        Some(Brk::CmdError { detail }) if detail == "2/4 of a batch failed; last: exit Some(1): no"
    ));
    assert_eq!((p.n, p.errors), (3, 2));
    let mut p = Point::new(4, 100);
    assert!(matches!(
        p.launched(Launch::Refused { timed_out: true, brief: "".into() }, 5),
        Some(Brk::Timeout { detail }) if detail == "docker run #1"
    ));
    let mut p = Point::new(4, 100);
    assert!(matches!(
        p.launched(Launch::Error("gone".into()), 5),
        Some(Brk::CmdError { detail }) if detail == "docker run #1: gone"
    ));
}

#[test]
fn latency_and_the_cap_end_a_point() {
    let ms: u64 = 1_000_000;
    let mut p = Point::new(1, 10);
    for _ in 0..3 {
        assert!(p.launched(Launch::Up, 100 * ms).is_none());
        let d = p.close_batch();
        assert_eq!(d, 200 * ms as u128);
        assert!(p.between_batches(d, None, 0, 0, true).is_none());
    }
    p.launched(Launch::Up, 5000 * ms);
    let d = p.close_batch();
    assert!(matches!(
        p.between_batches(d, None, 0, 0, true),
        Some(Brk::LatencyBlowup { median_ms: 5000, baseline_ms: 100 })
    ));
    let mut p = Point::new(1, 1);
    p.launched(Launch::Up, ms);
    assert!(!p.goes_on());
    let d = p.close_batch();
    assert!(matches!(p.between_batches(d, None, 0, 0, true), Some(Brk::MaxN { n: 1 })));
}

#[test]
fn vessels_are_checked_as_they_come() {
    assert!(vessel_launched("v", &Launch::Up, true).is_none());
    assert!(matches!(
        vessel_launched("v", &Launch::Up, false),
        Some(Brk::AgentUnhealthy { detail }) if detail == "v created but exec failed"
    ));
    assert!(matches!(
        vessel_launched("v", &Launch::Refused { timed_out: true, brief: "".into() }, false),
        Some(Brk::Timeout { detail }) if detail == "vessels new v"
    ));
    assert!(matches!(
        vessel_launched("v", &Launch::Refused { timed_out: false, brief: "b".into() }, false),
        Some(Brk::CmdError { detail }) if detail == "vessels new v: b"
    ));
    assert!(matches!(
        vessel_launched("v", &Launch::Error("e".into()), false),
        Some(Brk::CmdError { detail }) if detail == "vessels new v: e"
    ));
    // Only every fifth time is the engine looked at.
    assert!(before_vessel(4, 9, None, 0, 5, false).is_none());
    assert!(matches!(before_vessel(5, 9, None, 0, 5, false), Some(Brk::GuestOom { new_kills: 5 })));
    assert!(matches!(before_vessel(9, 9, None, 0, 0, true), Some(Brk::MaxN { n: 9 })));
}

fn cycle() -> HogCycle {
    HogCycle {
        peak_fp: 9000,
        min_held: 20_000,
        reinflated: true,
        settled_fp: 9000,
        settled_held: 29_000,
        hog_ok: true,
    }
}

#[test]
fn the_balloon_contract_is_checked() {
    assert!(idle_failures(30_000, 3000).is_empty());
    assert_eq!(
        idle_failures(24_576, 4096),
        vec!["idle: balloon holds >75% of max", "idle: host footprint < 4 GiB"]
    );
    assert!(hog_failures(&cycle(), 30_000, 3000, true, true).is_empty());
    let bad = HogCycle {
        peak_fp: 6072,
        min_held: 30_000,
        reinflated: false,
        settled_fp: 6585,
        settled_held: 0,
        hog_ok: false,
    };
    assert_eq!(
        hog_failures(&bad, 30_000, 3000, false, false),
        vec![
            "hog: container completed (no OOM)",
            "hog: footprint grew >3 GiB under load",
            "hog: balloon deflated for the workload",
            "hog: balloon re-inflated <=120s after release",
            "hog: settled footprint bounded by workload peak",
            "hog: no guest OOM kills",
            "hog: guest survived",
        ]
    );
    assert_eq!(drift_failure(2, &cycle()), None);
    assert_eq!(drift_failure(2, &bad).as_deref(), Some("drift: cycle 2 completed + re-inflated"));
    assert_eq!(
        concurrent_failures(false, false, false),
        vec![
            "concurrent: all 4 hogs completed",
            "concurrent: no guest OOM kills (deflate kept pace)",
            "concurrent: guest survived",
        ]
    );
    assert_eq!(
        ceiling_failures(false, false),
        vec!["ceiling: guest agent survived", "ceiling: container engine still answers"]
    );
    assert!(sawtooth_failures(true, 16, 2, true).is_empty());
    assert_eq!(
        sawtooth_failures(false, 17, 2, false),
        vec![
            "sawtooth: no guest OOM kills across the window",
            "sawtooth: controller does not thrash (<=8 resizes/cycle)",
            "sawtooth: guest survived",
        ]
    );
}

#[test]
fn the_suite_is_shorter_when_quick() {
    assert_eq!((drift_cycles(true, 10), drift_cycles(false, 10), drift_cycles(false, 1)), (3, 10, 2));
    assert_eq!((sawtooth_secs(true), sawtooth_secs(false)), (180, 600));
    assert_eq!(ceiling_hog_mib(1000), 950);
    assert_eq!(resizes(&vec![1, 1, 2, 2, 1]), 2);
    assert_eq!(resizes(&vec![]), 0);
    assert!(is_reinflated(28_000, 30_000) && !is_reinflated(27_951, 30_000));
    let e = Extremes { peak_fp: 10, min_held: 10 }.seen(20, 5).seen(15, 7);
    assert_eq!((e.peak_fp, e.min_held), (20, 5));
    assert_eq!((exit_code(0, 0), exit_code(1, 0), exit_code(0, 1)), (0, 1, 1));
}

#[test]
fn the_balloon_settles_after_a_minute() {
    let s = 1_000_000_000u64;
    let mut w = Settle::new();
    assert!(!w.sample(1000, 30 * s, 180));
    assert_eq!(w.stable, 0);
    assert!(!w.sample(1000, 61 * s, 180));
    assert!(!w.sample(1256, 63 * s, 180));
    assert!(w.sample(1000, 65 * s, 180));
    let mut w = Settle::new();
    assert!(w.sample(0, 181 * s, 180));
    // However short the time allowed, not within the first minute.
    let mut w = Settle::new();
    assert!(!w.sample(0, 31 * s, 30));
    assert!(w.sample(0, 61 * s, 30));
}

#[test]
fn a_configuration_is_put_back() {
    assert_eq!(restored(&backup(&Some("cpus = 1\n".into()))).as_deref(), Some("cpus = 1\n"));
    assert_eq!(restored(&backup(&None)), None);
    let mut t = ConfigGuard::take("/h", &Some("a".into()), &None);
    assert_eq!(t.guard.path, "/h/config.toml");
    assert_eq!(t.guard.bak, "/h/config.toml.battletest-orig");
    assert!(t.said.is_none());
    assert_eq!(t.guard.restore(&t.backup), Some(Some("a".to_string())));
    // Once is enough.
    assert_eq!(t.guard.restore(&t.backup), None);
}

#[test]
fn an_interrupted_run_is_undone_first() {
    let t = ConfigGuard::take("/h", &Some("patched".into()), &Some("original".into()));
    assert_eq!(t.config.as_deref(), Some("original"));
    assert_eq!(t.backup, "original");
    assert!(t.said.unwrap().starts_with("battletest: found stale /h/config.toml.battletest-orig"));
}

#[test]
fn settings_are_patched() {
    let d = ConfigGuard::set_max_ram(parse_toml("cpus = 2\n").unwrap(), 4096).unwrap();
    assert!(matches!(get(&d, "max_ram_mib"), Some(Doc::Num(n)) if n == "4096"));
    assert!(matches!(get(&d, "cpus"), Some(Doc::Num(n)) if n == "2"));
    let d = ConfigGuard::set_rootfs(d, &Some("/r.img".into())).unwrap();
    assert_eq!(text_field(&d, "rootfs").as_deref(), Some("/r.img"));
    let d = ConfigGuard::set_rootfs(d, &None).unwrap();
    assert!(get(&d, "rootfs").is_none());
    assert!(ConfigGuard::set_max_ram(Doc::Bool(true), 1).is_none());
}

#[test]
fn destructive_runs_are_armed() {
    assert!(armed(true, &None));
    assert!(armed(false, &Some("1".into())));
    assert!(!armed(false, &Some("yes".into())));
    assert!(!armed(false, &None));
}

#[test]
fn the_program_is_located() {
    let n = Nebula::locate(&Some("/x/nebula".into()), true, &None, 7440).unwrap();
    assert_eq!((n.bin.as_str(), n.api_port), ("/x/nebula", 7440));
    assert_eq!(
        Nebula::locate(&Some("/x".into()), false, &None, 1).unwrap_err(),
        "--nebula /x does not exist"
    );
    assert_eq!(Nebula::locate(&None, false, &Some("/s".into()), 1).unwrap().bin, "/s");
    assert_eq!(Nebula::locate(&None, false, &None, 1).unwrap().bin, "nebula");
}

#[test]
fn commands_reach_the_engine() {
    assert_eq!(Nebula::exec_args("true"), vec!["exec", "sh", "-c", "true"]);
    assert_eq!(Nebula::docker(&vec!["ps".into()]), vec!["docker", "ps"]);
    assert_eq!(Nebula::vessels(&vec!["ls".into()]), vec!["vessels", "ls"]);
    assert_eq!(
        Nebula::list_args("bt-c", true),
        vec!["ps", "-a", "--filter", "name=bt-c", "--format", "{{.Names}}"]
    );
    assert_eq!(Nebula::cleanup_vessels("v"), vec!["rm", "--force", "v"]);
    assert!(Nebula::exec_ok(&Some(out(Some(0), "", ""))));
    assert!(!Nebula::exec_ok(&None));
    assert_eq!(Nebula::exec_out("c", &out(Some(1), "so", "")).unwrap(), "so");
    let mut late = out(None, "", "");
    late.timed_out = true;
    assert_eq!(Nebula::exec_out("c", &late).unwrap_err(), "exec timed out: c");
    assert_eq!(Nebula::oom_count(&Some(out(Some(0), "3\n", ""))), 3);
    assert_eq!(Nebula::oom_count(&None), 0);
    assert_eq!(
        Nebula::bt_containers(&out(Some(0), "bt-c1\nmy-bt-cache\n bt-c2 \n\n", ""), "bt-c").unwrap(),
        vec!["bt-c1", "bt-c2"]
    );
    assert_eq!(
        Nebula::bt_containers(&out(Some(2), "", "no"), "bt-c").unwrap_err(),
        "docker ps failed: exit Some(2): no"
    );
    assert_eq!(Nebula::bt_vessels(&Some(out(Some(0), "NAME\nbt-v0 x\n", ""))), vec!["bt-v0"]);
    assert_eq!(
        Nebula::cleanup_containers(&Some(out(Some(0), "a\n", "")), "a"),
        vec![vec!["rm", "-f", "a"]]
    );
    assert!(Nebula::cleanup_containers(&None, "a").is_empty());
    assert_eq!(Nebula::pre_pull("i", &out(Some(0), "", "")), None);
    assert_eq!(
        Nebula::pre_pull("i", &out(Some(1), "", "no")).as_deref(),
        Some("pre-pull i failed: exit Some(1): no")
    );
}

#[test]
fn a_fresh_engine_has_a_minute() {
    let ok = out(Some(0), "", "");
    assert!(matches!(Nebula::fresh_up(&ok, true, 59), FreshUp::Ready));
    assert!(matches!(Nebula::fresh_up(&ok, false, 59), FreshUp::Wait));
    assert!(matches!(
        Nebula::fresh_up(&ok, false, 60),
        FreshUp::Failed(e) if e == "engine not healthy 60s after `nebula up` returned"
    ));
    assert!(matches!(
        Nebula::fresh_up(&out(Some(1), "", "x"), true, 0),
        FreshUp::Failed(e) if e == "nebula up failed: exit Some(1): x"
    ));
    let status = parse_json(br#"{"vmState":"Running","agent":{}}"#).unwrap();
    assert!(Nebula::healthy(&Some(copy(&status)), true));
    assert!(!Nebula::healthy(&Some(status), false));
    assert!(!Nebula::healthy(&None, true));
}

#[test]
fn results_have_their_places() {
    assert_eq!(run_dir("bench/results", "S", &Some("h".into()), "balloon"), "bench/results/S-h-balloon");
    assert_eq!(run_dir("r", "S", &None, "x"), "r/S-unknown-x");
    assert_eq!(baseline_path(&Some("/b".into()), &None, &None).as_deref(), Some("/b"));
    assert_eq!(
        baseline_path(&None, &Some("h".into()), &Some("bench".into())).as_deref(),
        Some("bench/baselines/h.json")
    );
    assert_eq!(baseline_path(&None, &None, &None), None);
    let d = host_meta(&HostFacts {
        hostname: Some("h".into()),
        chip: None,
        os: None,
        arch: "aarch64".into(),
        total_mib: Some(16),
        git_sha: None,
    });
    assert_eq!(text_field(&d, "hostname").as_deref(), Some("h"));
    assert!(matches!(get(&d, "chip"), Some(Doc::Null)));
}

fn stats(target: u64, fp: u64) -> Stats {
    Stats { balloon_target_mib: target, max_mib: 1000, host_footprint_mib: fp, guest: None }
}

#[test]
fn traces_have_a_row_per_sample() {
    assert_eq!(CSV_HEADER.split(',').count(), 13);
    assert_eq!(
        csv_row(5, "1.0", "idle", &stats(400, 77), "0.00", "1.50", Some(9)),
        "5,1.0,idle,0,0,0,400,600,1000,77,0.00,1.50,9"
    );
    let mut s = Summary::start();
    assert_eq!(Summary::start().stop().min_balloon_held_mib, 0);
    s.seen(&stats(400, 77));
    s.seen(&stats(500, 50));
    let s = s.stop();
    assert_eq!((s.samples, s.peak_host_fp_mib, s.min_balloon_held_mib), (2, 77, 500));
}

#[test]
fn host_memory_is_read_per_platform() {
    let meminfo = "MemTotal: 4096 kB\nMemAvailable:    2048 kB\n";
    assert_eq!(host_free_mib(HostOs::Linux, meminfo), Some(2));
    assert_eq!(host_total_mib(HostOs::Linux, meminfo), Some(4));
    assert_eq!(meminfo_mib(meminfo, "SwapFree:"), None);
    assert_eq!(host_total_mib(HostOs::Macos, "17179869184\n"), Some(16384));
    assert_eq!(host_free_mib(HostOs::Windows, "2048\r\n"), Some(2));
    let vm = "Mach Virtual Memory Statistics: (page size of 16384 bytes)\nPages free: 64.\nPages active: 9.\nPages inactive: 64.\n";
    assert_eq!(vm_stat_free_mib(vm), Some(2));
    assert_eq!(vm_stat_free_mib("nothing"), None);
}

#[test]
fn processes_hold_memory() {
    assert_eq!(rss_mib("Name: x\nVmRSS:   2048 kB\n"), 2);
    let ps = vec![
        Process { cmdline: "nebula krun-worker --spec".into(), status: "VmRSS: 3072 kB\n".into() },
        Process { cmdline: "bash".into(), status: "VmRSS: 9999 kB\n".into() },
    ];
    assert_eq!(host_footprint_mib("VmRSS: 1024 kB\n", &ps), 4);
    let m = MemStats {
        total_kib: 4096,
        free_kib: 0,
        available_kib: 2048,
        cached_kib: 0,
        psi_some_avg10: Some(Double { bits: 1.5f64.to_bits() }),
        psi_full_avg10: None,
    };
    let s = balloon_sample(&m);
    assert_eq!((s.total_mib, s.available_mib, s.psi_some_avg10), (4, 2, Some(Double { bits: 1.5f64.to_bits() })));
    let mut b = BalloonState::start(1000);
    b.tried(600, false);
    assert_eq!(b.target_mib, 1000);
    b.tried(600, true);
    assert_eq!((b.target_mib, b.max_mib), (600, 1000));
}

#[test]
fn the_frameworks_processes_are_charged() {
    let mib = |n: u64| Some(n * 1024 * 1024);
    let guest = "/System/Library/com.apple.Virtualization.VirtualMachine";
    let ps = vec![
        MacProcess { path: guest.into(), footprint: mib(300) },
        MacProcess { path: "/bin/zsh".into(), footprint: mib(9999) },
        MacProcess { path: guest.into(), footprint: None },
    ];
    assert_eq!(vm_xpc_footprint_mib(mib(40), &ps), 340);
    assert_eq!(vm_xpc_footprint_mib(None, &vec![]), 0);
    assert_eq!(footprint_of(Some(1_048_575)), 0);
}

fn bench(dir: &str, meta: &str, checks: Option<&str>) -> Run {
    Run {
        dir_name: dir.into(),
        meta: parse_json(meta.as_bytes()).unwrap(),
        checks: checks.map(|c| parse_json(c.as_bytes()).unwrap()),
    }
}

#[test]
fn the_newest_run_of_a_flavor_is_shown() {
    let runs = vec![
        bench("1", r#"{"scenario":"container-scale","flavor":"slim"}"#, None),
        bench("2", r#"{"scenario":"container-scale","flavor":"full"}"#, None),
        bench("3", r#"{"scenario":"container-scale","flavor":"slim"}"#, None),
        bench("4", r#"{"scenario":"balloon"}"#, None),
    ];
    assert_eq!(scenario_of(&runs[3]), "balloon");
    assert_eq!(
        latest(&runs, "container-scale"),
        vec![("full".to_string(), 1), ("slim".to_string(), 2)]
    );
    assert_eq!(latest(&runs, "vessel-scale"), vec![]);
}

#[test]
fn reports_have_rows() {
    let p = parse_json(
        br#"{"flavor":"full","workload":"idle","stop_reason":"max_n","container_errors":2,"backend":"vz"}"#,
    )
    .unwrap();
    assert_eq!(container_row(&p, "4096", "12"), "| full | idle | 4096 | 12 | max_n | 2 |");
    assert_eq!(container_row(&Doc::Null, "0", "0"), "| ? | ? | 0 | 0 | ? | 0 |");
    let f = VesselFigures {
        mem: "1024".into(),
        count: "3".into(),
        boot_first: "10".into(),
        boot_last: "20".into(),
        host_cost: "5".into(),
    };
    assert_eq!(vessel_row(&p, &f), "| vz | 1024 | 3 | max_n | 10→20 | 5 |");
    assert_eq!(metric_row("idle.fp_mib", "3.0"), "| idle.fp_mib | 3.0 |");
    let r = bench("9", "{}", Some(r#"{"passed":false,"failures":["a",1]}"#));
    assert_eq!(balloon_lines(&r), vec!["Latest run `9`: **FAIL**", "", "- FAIL: a", "- FAIL: ?"]);
    assert!(balloon_lines(&bench("9", "{}", None)).is_empty());
}

#[test]
fn sections_of_the_report() {
    assert_eq!(
        report_head("bench/results"),
        "# Nebula battle-test report\n\nGenerated from `bench/results`. Newest run of each scenario wins.\n\n"
    );
    let rows = vec!["| a |".to_string(), "| b |".to_string()];
    assert_eq!(
        container_section(&rows),
        "## Containers in vessel 0 vs max RAM\n\n\
         | flavor | workload | max RAM (MiB) | containers | stop reason | errors |\n\
         |---|---|---|---|---|---|\n| a |\n| b |\n\
         \n![containers vs max RAM](containers-vs-maxram.svg)\n\n"
    );
    assert!(vessel_section(&vec![]).ends_with(
        "|---|---|---|---|---|---|\n\n![vessels vs per-vessel RAM](vessels-vs-mem.svg)\n\n"
    ));
    let checks = parse_json(br#"{"passed": false, "failures": ["idle"]}"#).unwrap();
    let meta = |s: &str| parse_json(format!("{{\"scenario\": \"{s}\"}}").as_bytes()).unwrap();
    let runs = vec![
        Run { dir_name: "1".into(), meta: meta("balloon"), checks: None },
        Run { dir_name: "2".into(), meta: meta("balloon"), checks: Some(checks) },
        Run { dir_name: "3".into(), meta: meta("vessel-scale"), checks: None },
    ];
    assert_eq!(newest(&runs, "balloon"), Some(1));
    assert_eq!(newest(&runs, "container-scale"), None);
    assert_eq!(
        balloon_section(&runs[1], &Some(vec!["| idle.fp_mib | 900.0 |".to_string()])),
        "## Balloon contract\n\nLatest run `2`: **FAIL**\n\n- FAIL: idle\n\
         \n| metric | value |\n|---|---|\n| idle.fp_mib | 900.0 |\n\n"
    );
    assert_eq!(balloon_section(&runs[0], &None), "## Balloon contract\n\n\n");
    let p = parse_json(br#"{"flavor": "full", "workload": "idle", "backend": "krun"}"#).unwrap();
    assert_eq!(container_series(&p), "full/idle");
    assert_eq!(vessel_series(&p), "krun");
}

#[test]
fn only_our_containers_are_removed() {
    let mut listed = String::from("my-bt-cache\n");
    for i in 1..=120 {
        listed.push_str(&format!("bt-c{i}\n"));
    }
    let calls = Nebula::cleanup_containers(&Some(out(Some(0), &listed, "")), "bt-c");
    assert_eq!(calls.iter().map(|c| c.len() - 2).collect::<Vec<_>>(), vec![50, 50, 20]);
    let named: Vec<&String> = calls.iter().flat_map(|c| c.iter().skip(2)).collect();
    for i in 1..=120 {
        assert_eq!(named.iter().filter(|n| **n == &format!("bt-c{i}")).count(), 1);
    }
    assert!(named.iter().all(|n| n.as_str() != "my-bt-cache"));
}

#[test]
fn waits_are_bounded() {
    let s = 1_000_000_000;
    assert_eq!(reinflate(Some(6000), 8000, 200 * s), Reinflate::Back);
    assert_eq!(reinflate(Some(5000), 8000, 119 * s), Reinflate::Wait);
    assert_eq!(reinflate(None, 8000, 119 * s), Reinflate::Wait);
    assert_eq!(reinflate(Some(5000), 8000, 120 * s), Reinflate::GivenUp);
    assert!(watch_on(true, 239 * s));
    assert!(!watch_on(true, 240 * s));
    assert!(!watch_on(false, 0));
}

#[test]
fn stamps_sort_by_time() {
    let times = [0, 1, 59, 3_599, 86_399, 86_400, 951_782_399, 951_782_400, 1_700_000_000, 4_102_444_799];
    let stamps: Vec<String> = times.iter().map(|t| utc_stamp(*t)).collect();
    assert!(stamps.windows(2).all(|w| w[0] < w[1]), "{stamps:?}");
    assert!(stamps.iter().all(|s| s.len() == 15));
}

use nebula::answers::{
    branch_outcome, console, created, error_body, one_word, restore_outcome, snapshot_infos,
    snapshot_outcome, start_outcome, stop_outcome, summaries, vessel_named,
};
use nebula::branch::{BranchOutcome, BranchedVessel};
use nebula::doc::Doc;
use nebula::lifecycle::{StartOutcome, Started, StopOutcome, VesselSummary};
use nebula::snapshots::{DiskOnlyReason, RestoreOutcome, SnapshotInfo, SnapshotOutcome};
use serde_json::Value;

fn json(d: &Doc) -> Value {
    match d {
        Doc::Null => Value::Null,
        Doc::Bool(b) => Value::Bool(*b),
        Doc::Num(n) => serde_json::from_str(n).unwrap(),
        Doc::Str(s) => Value::String(s.clone()),
        Doc::List(v) => Value::Array(v.iter().map(json).collect()),
        Doc::Table(v) => Value::Object(
            v.iter()
                .map(|(k, v)| match k {
                    Doc::Str(k) => (k.clone(), json(v)),
                    other => panic!("{other:?}"),
                })
                .collect(),
        ),
        Doc::Tagged(_, d) => json(d),
    }
}

fn is(d: &Doc, text: &str) {
    let want: Value = serde_json::from_str(text).unwrap();
    assert_eq!(json(d), want);
}

fn up() -> Started {
    Started {
        resumed: true,
        boot_ms: 412,
        kernel: "6.12.0".into(),
        agent_version: "0.3.1".into(),
    }
}

fn vessel(name: &str, cpus: u32) -> VesselSummary {
    VesselSummary {
        name: name.into(),
        running: true,
        cpus,
        mem_mib: 2048,
        gpu: false,
        backend: "krun".into(),
    }
}

#[test]
fn plain_bodies() {
    is(&error_body("no \"such\" thing"), r#"{"error":"no \"such\" thing"}"#);
    is(&one_word("removed", "dev"), r#"{"removed":"dev"}"#);
    is(&stop_outcome(StopOutcome::NotRunning), r#""not_running""#);
    is(&stop_outcome(StopOutcome::Stopped), r#""stopped""#);
    is(&stop_outcome(StopOutcome::Forced), r#""forced""#);
}

#[test]
fn vessels_are_listed_and_found() {
    let all = vec![vessel("a", 2), vessel("b", 4), vessel("b", 8)];
    is(&summaries(&Vec::new()), "[]");
    is(
        &summaries(&vec![vessel("a", 2)]),
        r#"[{"name":"a","running":true,"cpus":2,"mem_mib":2048,"gpu":false,"backend":"krun"}]"#,
    );
    is(
        &vessel_named(&all, "b").unwrap(),
        r#"{"name":"b","running":true,"cpus":4,"mem_mib":2048,"gpu":false,"backend":"krun"}"#,
    );
    assert_eq!(vessel_named(&all, "c").unwrap_err().message(), "no vessel named `c`");
}

#[test]
fn starts_are_told() {
    is(&start_outcome(&StartOutcome::AlreadyRunning), r#"{"outcome":"already_running"}"#);
    is(
        &start_outcome(&StartOutcome::Started(up())),
        r#"{"outcome":"started","resumed":true,"boot_ms":412,"kernel":"6.12.0","agent_version":"0.3.1"}"#,
    );
    is(&created("dev", &None), r#"{"created":"dev"}"#);
    is(
        &created("dev", &Some(StartOutcome::AlreadyRunning)),
        r#"{"created":"dev","start":{"outcome":"already_running"}}"#,
    );
}

#[test]
fn snapshots_are_told() {
    is(
        &snapshot_infos(&vec![SnapshotInfo { label: "clean".into(), memory: true }]),
        r#"[{"label":"clean","memory":true}]"#,
    );
    is(
        &snapshot_outcome(&SnapshotOutcome::Memory { ms: 90, state_mb: 512 }),
        r#"{"kind":"memory","ms":90,"state_mb":512}"#,
    );
    for (reason, word) in [
        (DiskOnlyReason::Requested, "requested"),
        (DiskOnlyReason::BackendUnsupported, "backend_unsupported"),
        (DiskOnlyReason::NotRunning, "not_running"),
    ] {
        is(
            &snapshot_outcome(&SnapshotOutcome::DiskOnly { ms: 7, reason }),
            &format!(r#"{{"kind":"disk_only","ms":7,"reason":"{word}"}}"#),
        );
    }
}

#[test]
fn roll_backs_are_told() {
    is(
        &restore_outcome(&RestoreOutcome::LiveResume, &Some(up())).unwrap(),
        r#"{"outcome":"live_resume","resumed":true,"boot_ms":412,"kernel":"6.12.0","agent_version":"0.3.1"}"#,
    );
    assert!(restore_outcome(&RestoreOutcome::LiveResume, &None).is_none());
    is(
        &restore_outcome(
            &RestoreOutcome::ColdBootFallback { resume_error: "no state".into() },
            &None,
        )
        .unwrap(),
        r#"{"outcome":"cold_boot_fallback","resume_error":"no state"}"#,
    );
    is(
        &restore_outcome(&RestoreOutcome::DiskRestore { restarted: false }, &Some(up())).unwrap(),
        r#"{"outcome":"disk_restore","restarted":false}"#,
    );
}

#[test]
fn branches_are_told() {
    let o = BranchOutcome {
        vessels: vec![
            BranchedVessel { name: "x-1".into(), live: true, fallback_error: None },
            BranchedVessel { name: "x-2".into(), live: false, fallback_error: Some("cold".into()) },
        ],
        from_memory: true,
        ms: 33,
    };
    is(
        &branch_outcome(&o),
        r#"{"vessels":[{"name":"x-1","live":true,"fallback_error":null},{"name":"x-2","live":false,"fallback_error":"cold"}],"from_memory":true,"ms":33}"#,
    );
}

#[test]
fn a_console_is_cut_to_its_tail() {
    let log = b"first\nlast\xff".to_vec();
    is(&console(&log, 5), "{\"console\":\"last\u{fffd}\"}");
    is(&console(&log, 4096), "{\"console\":\"first\\nlast\u{fffd}\"}");
    is(&console(&log, 0), r#"{"console":""}"#);
}

use nebula::instance::{
    path, record_exit, report_previous_run, running, temp_path, ExitRecord, InstanceRecord, PreviousRun,
};
use nebula::paths::Paths;
use nebula::ports::PortPlan;
use nebula::shutdown::Reason;

fn paths() -> Paths {
    Paths { root: "/home/x/.nebula".to_string() }
}

fn plan() -> PortPlan {
    PortPlan {
        api_host: "127.0.0.1".into(),
        api_port: 7440,
        dns_port: 42053,
        k8s_port: 6443,
        dns_zone: "nebula.local".into(),
    }
}

fn write_running() -> InstanceRecord {
    running(4321, "0.1.0", &paths(), &plan(), 1_700_000_000)
}

#[test]
fn round_trips_a_running_record() {
    let rec = write_running();
    assert_eq!(rec.pid, 4321);
    assert_eq!(rec.ports.api_port, 7440);
    assert!(rec.exit.is_none(), "a running record has no exit stamp");
    assert_eq!(rec.home, "/home/x/.nebula");
    assert_eq!(rec.started_at, 1_700_000_000);
}

#[test]
fn records_an_exit_reason() {
    let rec = record_exit(
        Some(write_running()),
        ExitRecord {
            reason: "signal".into(),
            detail: Some("SIGTERM".into()),
            at: 1_700_000_012,
            uptime_secs: 12,
            containers: Some(3),
            vessels_running: Some(1),
        },
    );
    let e = rec.unwrap().exit.unwrap();
    assert_eq!(e.reason, "signal");
    assert_eq!(e.detail.as_deref(), Some("SIGTERM"));
    assert_eq!(e.uptime_secs, 12);
    assert_eq!(e.containers, Some(3));
}

#[test]
fn missing_record_is_not_an_error() {
    // Nothing to stamp; must not panic.
    let rec = record_exit(
        None,
        ExitRecord {
            reason: "down".into(),
            detail: None,
            at: 1_700_000_000,
            uptime_secs: 0,
            containers: None,
            vessels_running: None,
        },
    );
    assert!(rec.is_none());
}

#[test]
fn the_record_stands_in_the_run_directory() {
    assert_eq!(path(&paths()), "/home/x/.nebula/run/instance.json");
    assert_ne!(temp_path(&paths()), path(&paths()));
}

#[test]
fn an_exit_names_its_reason() {
    let e = ExitRecord::of(&Reason::Down { force: true }, 5, 4, None, Some(2));
    assert_eq!(e.reason, "down");
    assert_eq!(e.detail.as_deref(), Some("force=true"));
    assert_eq!((e.at, e.uptime_secs, e.vessels_running), (5, 4, Some(2)));
}

#[test]
fn the_previous_run_is_judged_by_its_stamp() {
    assert!(matches!(report_previous_run(&None, 9), PreviousRun::Unknown));
    let mut rec = write_running();
    match report_previous_run(&Some(write_running()), 1_700_000_100) {
        PreviousRun::Unclean { pid, version, started_at, ran_secs } => {
            assert_eq!((pid, version, started_at), (rec.pid, rec.version.clone(), rec.started_at));
            assert_eq!(ran_secs, 100);
        }
        other => panic!("{other:?}"),
    }
    rec.exit = Some(ExitRecord::of(&Reason::Down { force: true }, 5, 4, None, None));
    let (pid, version) = (rec.pid, rec.version.clone());
    match report_previous_run(&Some(rec), 1_700_000_100) {
        PreviousRun::Clean { pid: p, version: v, reason, detail, uptime_secs } => {
            assert_eq!((p, v, uptime_secs), (pid, version, 4));
            assert_eq!((reason.as_str(), detail.as_str()), ("down", "force=true"));
        }
        other => panic!("{other:?}"),
    }
    let mut plain = write_running();
    plain.exit = Some(ExitRecord::of(&Reason::ListenerClosed, 5, 4, None, None));
    let r = report_previous_run(&Some(plain), 9);
    assert!(matches!(r, PreviousRun::Clean { detail, .. } if detail.is_empty()));
}

use nebula::backend::VmState;
use nebula::shutdown::{signal_name, vessel_died, Finish, Life, Reason};

const SIGHUP: i32 = libc::SIGHUP;
const SIGTERM: i32 = libc::SIGTERM;

#[test]
fn labels_are_stable() {
    assert_eq!(Reason::Down { force: false }.label(), "down");
    assert_eq!(Reason::Signal(SIGTERM).label(), "signal");
    assert_eq!(Reason::VesselDied("Failed".into()).label(), "vessel-died");
    assert_eq!(Reason::ListenerClosed.label(), "listener-closed");
}

#[test]
fn details_name_the_cause() {
    assert_eq!(Reason::Signal(SIGHUP).detail().as_deref(), Some("SIGHUP"));
    assert_eq!(
        Reason::Down { force: true }.detail().as_deref(),
        Some("force=true")
    );
    assert_eq!(
        Reason::VesselDied("Failed".into()).detail().as_deref(),
        Some("vm state Failed")
    );
    // A multi-paragraph startup error is summarised, not pasted into a
    // log field.
    assert_eq!(
        Reason::StartupError("port 7440 in use\n\nfix it by...".into())
            .detail()
            .as_deref(),
        Some("port 7440 in use")
    );
}

#[test]
fn only_failures_exit_nonzero() {
    assert_eq!(Reason::Down { force: false }.exit_code(), 0);
    assert_eq!(Reason::Signal(SIGTERM).exit_code(), 0);
    assert_eq!(Reason::VesselDied("Failed".into()).exit_code(), 70);
    assert_eq!(Reason::Fatal("boom".into()).exit_code(), 1);
    assert_eq!(Reason::StartupError("boom".into()).exit_code(), 1);
}

#[test]
fn signals_have_their_names() {
    assert_eq!(signal_name(libc::SIGINT), "SIGINT");
    assert_eq!(signal_name(SIGTERM), "SIGTERM");
    assert_eq!(signal_name(SIGHUP), "SIGHUP");
}

#[test]
fn one_path_cleans_up() {
    let mut life = Life::new();
    // Before anything was set up there is nothing to take down.
    assert!(matches!(
        life.finish(&Reason::StartupError("x".into()), None),
        Finish::JustExit { code: 1 }
    ));
    let mut life = Life::new();
    life.init();
    assert!(!life.is_serving());
    life.mark_serving();
    assert!(life.is_serving());
    assert!(matches!(
        life.finish(&Reason::Down { force: false }, Some(VmState::Running)),
        Finish::CleanUp { code: 0, .. }
    ));
    assert!(matches!(
        life.finish(&Reason::Signal(SIGTERM), Some(VmState::Running)),
        Finish::AfterTheOther { code: 0, .. }
    ));
}

#[test]
fn a_dead_vessel_is_not_mourned_twice() {
    assert!(vessel_died(false, VmState::Stopped));
    assert!(vessel_died(false, VmState::Failed));
    assert!(!vessel_died(true, VmState::Stopped));
    assert!(!vessel_died(false, VmState::Running));
}

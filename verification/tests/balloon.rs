use nebula::balloon::{Action, Config, Controller, Sample};
use nebula::double::Double;

fn percent(p: f64) -> Option<Double> {
    Some(Double { bits: p.to_bits() })
}

fn cfg() -> Config {
    Config::for_max(32 * 1024)
}

fn idle_sample() -> Sample {
    Sample {
        total_mib: 32 * 1024,
        available_mib: 31 * 1024,
        psi_some_avg10: percent(0.0),
    }
}

/// Runs until the controller settles (bounded), returning the resize count.
fn settle(c: &mut Controller, used_mib: u64, max_ticks: u32) -> u32 {
    let mut sets = 0;
    for _ in 0..max_ticks {
        let s = Sample {
            total_mib: 32 * 1024,
            available_mib: c.target_mib().saturating_sub(used_mib).max(600),
            psi_some_avg10: percent(0.0),
        };
        if let Action::SetTarget(_) = c.tick(s) {
            sets += 1;
        }
    }
    sets
}

#[test]
fn idle_guest_reclaims_in_a_single_jump() {
    let mut c = Controller::new(cfg());
    let sets = settle(&mut c, 700, 120);
    assert_eq!(sets, 1, "one resize per workload change, not a staircase");
    // 700 used + 2048 headroom (min floor 1024).
    assert_eq!(c.target_mib(), 700 + 2048);
}

#[test]
fn no_reclaim_before_sustained_surplus() {
    let mut c = Controller::new(cfg());
    for _ in 0..44 {
        assert_eq!(c.tick(idle_sample()), Action::Hold);
    }
    assert!(matches!(c.tick(idle_sample()), Action::SetTarget(_)));
}

#[test]
fn settled_guest_stays_quiet() {
    let mut c = Controller::new(cfg());
    settle(&mut c, 700, 120);
    // 10 minutes of idle ticks with sub-deadband wiggle: zero resizes.
    for i in 0..600u64 {
        let wiggle = if i % 2 == 0 { 100 } else { 0 };
        let s = Sample {
            total_mib: 32 * 1024,
            available_mib: c.target_mib() - 700 - wiggle,
            psi_some_avg10: percent(0.0),
        };
        assert_eq!(c.tick(s), Action::Hold, "tick {i} must hold");
    }
}

#[test]
fn sustained_pressure_escalates_to_max_quickly() {
    let mut c = Controller::new(cfg());
    settle(&mut c, 700, 120);
    let mut last = c.target_mib();
    assert!(last < 32 * 1024);
    for tick in 1..=6 {
        let s = Sample {
            total_mib: 32 * 1024,
            available_mib: 100,
            psi_some_avg10: percent(0.0),
        };
        match c.tick(s) {
            Action::SetTarget(t) => {
                assert!(t > last, "tick {tick}: must grow");
                last = t;
            }
            Action::Hold => break,
        }
    }
    assert_eq!(c.target_mib(), 32 * 1024);
}

#[test]
fn brief_pressure_blip_does_not_slam_to_max() {
    let mut c = Controller::new(cfg());
    settle(&mut c, 700, 120);
    let shrunk = c.target_mib();
    let s = Sample {
        total_mib: 32 * 1024,
        available_mib: 100,
        psi_some_avg10: percent(0.0),
    };
    assert_eq!(c.tick(s), Action::SetTarget((shrunk * 2).min(32 * 1024)));
    assert!(c.target_mib() < 32 * 1024 / 2);
}

#[test]
fn psi_alone_triggers_deflate() {
    let mut c = Controller::new(cfg());
    settle(&mut c, 700, 120);
    let before = c.target_mib();
    let s = Sample {
        total_mib: 32 * 1024,
        available_mib: 4 * 1024,
        psi_some_avg10: percent(20.0),
    };
    match c.tick(s) {
        Action::SetTarget(t) => assert!(t > before),
        Action::Hold => panic!("PSI pressure must act"),
    }
}

#[test]
fn growth_deflates_immediately_without_waiting() {
    let mut c = Controller::new(cfg());
    settle(&mut c, 700, 120);
    let shrunk = c.target_mib();
    // 6 GiB of new use, still above the pressure floor.
    let s = Sample {
        total_mib: 32 * 1024,
        available_mib: shrunk.saturating_sub(6 * 1024).max(500),
        psi_some_avg10: percent(0.0),
    };
    match c.tick(s) {
        Action::SetTarget(t) => assert!(t > shrunk),
        Action::Hold => panic!("must react to growth"),
    }
}

#[test]
fn cooldown_swallows_transition_skew() {
    let mut c = Controller::new(cfg());
    settle(&mut c, 700, 120);
    // Material growth triggers a resize…
    let shrunk = c.target_mib();
    let s = Sample {
        total_mib: 32 * 1024,
        available_mib: shrunk.saturating_sub(6 * 1024).max(500),
        psi_some_avg10: percent(0.0),
    };
    assert!(matches!(c.tick(s), Action::SetTarget(_)));
    // …then transition-skewed samples (absurd readings) hold for the
    // cooldown window instead of triggering follow-up resizes.
    for _ in 0..5 {
        let skewed = Sample {
            total_mib: 32 * 1024,
            available_mib: 31 * 1024, // looks suddenly empty
            psi_some_avg10: percent(0.0),
        };
        assert_eq!(c.tick(skewed), Action::Hold);
    }
}

#[test]
fn never_exceeds_bounds() {
    let mut c = Controller::new(cfg());
    for i in 0..1000u64 {
        let s = Sample {
            total_mib: 32 * 1024,
            available_mib: (i * 37) % (30 * 1024),
            psi_some_avg10: percent(((i % 17) as f64) * 1.3),
        };
        c.tick(s);
        assert!(c.target_mib() >= 1024);
        assert!(c.target_mib() <= 32 * 1024);
    }
}

#[test]
fn the_balloon_holds_what_the_target_leaves() {
    let mut c = Controller::new(cfg());
    assert_eq!(c.target_mib(), 32 * 1024);
    assert_eq!(c.balloon_mib(), 0);
    settle(&mut c, 700, 120);
    assert_eq!(c.balloon_mib(), 32 * 1024 - 2748);
}

#[test]
fn a_guest_without_stall_figures_is_judged_by_memory_alone() {
    let mut c = Controller::new(cfg());
    settle(&mut c, 700, 120);
    let s = Sample {
        total_mib: 32 * 1024,
        available_mib: c.target_mib() - 700,
        psi_some_avg10: None,
    };
    assert_eq!(c.tick(s), Action::Hold);
}

#[test]
fn the_least_pressure_above_the_threshold_acts() {
    let tick = |psi_some_avg10| {
        let mut c = Controller::new(cfg());
        settle(&mut c, 700, 120);
        c.tick(Sample { total_mib: 32 * 1024, available_mib: 4 * 1024, psi_some_avg10 })
    };
    let acts = |psi| matches!(tick(psi), Action::SetTarget(_));
    assert!(acts(percent(10.005)));
    assert!(acts(percent(10.000000000000002)));
    assert!(acts(percent(f64::INFINITY)));
    assert!(!acts(percent(10.0)));
    assert!(!acts(percent(-20.0)));
    assert!(!acts(percent(f64::NAN)));
    assert!(!acts(None));
}

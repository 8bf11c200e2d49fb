//! Elastic memory policy: the guest keeps only what its workloads need.
//!
//! `target` is the memory the guest may keep; lowering it inflates the balloon
//! (pages return to the host), raising it deflates. The controller's contract:
//!
//! - Deflate fast. Guest pressure (low available memory or PSI) immediately
//!   raises the target: workloads must never run out because of the balloon.
//! - Inflate slow. Memory is reclaimed only after a sustained surplus, with
//!   hysteresis, so that sawtooth workloads cause no thrash.
//!
//! A pure state machine: measurements come in, a new target (maybe) comes out.
//! Pressure-stall percentages are double-precision numbers, carried by their
//! bits.

use crate::double::{unwrap_or_zero, Double};
use vstd::prelude::*;

verus! {

/// The bits of 10.
pub const TEN: u64 = 0x4024_0000_0000_0000;

#[derive(Debug, Clone, Copy)]
pub struct Config {
    /// Hard ceiling: the VM's configured memory (MiB).
    pub max_mib: u64,
    /// Floor: kernel and system daemons need this much (MiB).
    pub min_mib: u64,
    /// Headroom kept above measured workload use (MiB).
    pub headroom_mib: u64,
    /// Available-memory floor that triggers an emergency deflate (MiB).
    pub low_water_mib: u64,
    /// PSI some avg10 (%) above which we deflate.
    pub psi_deflate_threshold: Double,
    /// Ticks of sustained surplus before we inflate (reclaim).
    pub inflate_after_ticks: u32,
    /// Ticks to sit out after any resize: /proc/meminfo is skewed while the
    /// guest moves balloon pages, and acting on those samples causes churn.
    pub cooldown_ticks: u32,
    /// Ignore target changes smaller than this (MiB).
    pub deadband_mib: u64,
}

impl Config {
    /// A usable configuration: the floor does not exceed the ceiling, and the
    /// ceiling leaves room for doubling and for the deadband in 64 bits.
    pub open spec fn valid(self) -> bool {
        &&& self.min_mib <= self.max_mib
        &&& 2 * self.max_mib <= u64::MAX
        &&& self.max_mib + self.deadband_mib <= u64::MAX
    }

    /// The policy for a VM of `max_mib` MiB.
    pub fn for_max(max_mib: u64) -> (cfg: Config)
        ensures
            cfg.max_mib == max_mib,
            cfg.min_mib == (if max_mib < 1024 { max_mib } else { 1024 }),
            cfg.headroom_mib == (if max_mib / 16 > 1536 { max_mib / 16 } else { 1536 }),
            cfg.low_water_mib == 384,
            cfg.psi_deflate_threshold == (Double { bits: TEN }),
            cfg.inflate_after_ticks == 45,
            cfg.cooldown_ticks == 5,
            cfg.deadband_mib == 512,
            2 * max_mib <= u64::MAX ==> cfg.valid(),
    {
        Config {
            max_mib,
            min_mib: if max_mib < 1024 { max_mib } else { 1024 },
            // Generous slack: tight headroom turns routine page-cache churn
            // into pressure events. About 6% of max, at least 1.5 GiB.
            headroom_mib: if max_mib / 16 > 1536 { max_mib / 16 } else { 1536 },
            low_water_mib: 384,
            psi_deflate_threshold: Double { bits: TEN },
            inflate_after_ticks: 45,
            cooldown_ticks: 5,
            deadband_mib: 512,
        }
    }
}

/// One tick's worth of guest measurements.
#[derive(Debug, Clone, Copy)]
pub struct Sample {
    pub total_mib: u64,
    pub available_mib: u64,
    /// PSI some avg10 (%).
    pub psi_some_avg10: Option<Double>,
}

#[derive(Debug, Clone, Copy, PartialEq, Eq, Structural)]
pub enum Action {
    /// Set the balloon target to this many MiB.
    SetTarget(u64),
    /// Leave things alone.
    Hold,
}

#[derive(Debug)]
pub struct Controller {
    cfg: Config,
    /// What we last asked the guest to keep (MiB).
    target_mib: u64,
    surplus_ticks: u32,
    cooldown: u32,
}

/// The controller's state as the contracts see it.
pub struct State {
    pub cfg: Config,
    pub target: int,
    pub surplus: int,
    pub cooldown: int,
}

impl State {
    /// What every operation keeps: a usable configuration, a target between
    /// the floor and the ceiling, and a surplus count short of the window.
    pub open spec fn inv(self) -> bool {
        &&& self.cfg.valid()
        &&& self.cfg.min_mib <= self.target <= self.cfg.max_mib
        &&& self.surplus == 0 || 0 < self.surplus < self.cfg.inflate_after_ticks
        &&& 0 <= self.cooldown <= self.cfg.cooldown_ticks
    }

    /// Memory that the balloon holds.
    pub open spec fn balloon(self) -> int {
        self.cfg.max_mib - self.target
    }

    /// Workload use. The guest reports the full configured size as its total,
    /// and the pages that the balloon holds are missing from `available`, so
    /// measured use is corrected by them.
    pub open spec fn used(self, s: Sample) -> int {
        let taken = s.total_mib - s.available_mib - self.balloon();
        if s.total_mib < s.available_mib || taken < 0 {
            0
        } else {
            taken
        }
    }

    pub open spec fn pressured(self, s: Sample) -> bool {
        ||| s.available_mib < self.cfg.low_water_mib
        ||| crate::double::or_zero(s.psi_some_avg10).greater(self.cfg.psi_deflate_threshold)
    }

    /// The target that fits the workload, with headroom, within the bounds.
    pub open spec fn desired(self, s: Sample) -> int {
        let wanted = self.used(s) + self.cfg.headroom_mib;
        if wanted < self.cfg.min_mib {
            self.cfg.min_mib as int
        } else if wanted > self.cfg.max_mib {
            self.cfg.max_mib as int
        } else {
            wanted
        }
    }

    /// The state right after a resize to `target`.
    pub open spec fn resized(self, target: int) -> State {
        State { cfg: self.cfg, target, surplus: 0, cooldown: self.cfg.cooldown_ticks as int }
    }

    /// The state in which a tick leaves the controller.
    pub open spec fn after(self, s: Sample) -> State {
        let desired = self.desired(s);
        if self.pressured(s) {
            if self.target < self.cfg.max_mib {
                self.resized(
                    if 2 * self.target < self.cfg.max_mib {
                        2 * self.target
                    } else {
                        self.cfg.max_mib as int
                    },
                )
            } else {
                State { surplus: 0, ..self }
            }
        } else if self.cooldown > 0 {
            State { cooldown: self.cooldown - 1, ..self }
        } else if desired > self.target + self.cfg.deadband_mib {
            self.resized(desired)
        } else if desired > self.target || self.target - desired < self.cfg.deadband_mib {
            State { surplus: 0, ..self }
        } else if self.surplus + 1 < self.cfg.inflate_after_ticks {
            State { surplus: self.surplus + 1, ..self }
        } else {
            self.resized(desired)
        }
    }

    /// Whether a tick resizes the guest: under pressure below the ceiling, or
    /// off cooldown when the workload grew past the deadband, or when a surplus
    /// of at least the deadband has lasted for the whole window.
    pub open spec fn resizes(self, s: Sample) -> bool {
        let desired = self.desired(s);
        if self.pressured(s) {
            self.target < self.cfg.max_mib
        } else {
            self.cooldown == 0 && (desired > self.target + self.cfg.deadband_mib || (desired
                <= self.target && self.target - desired >= self.cfg.deadband_mib && self.surplus + 1
                >= self.cfg.inflate_after_ticks))
        }
    }

    /// The state after a run of ticks.
    pub open spec fn run(self, samples: Seq<Sample>) -> State
        decreases samples.len(),
    {
        if samples.len() == 0 {
            self
        } else {
            self.run(samples.drop_last()).after(samples.last())
        }
    }
}

impl View for Controller {
    type V = State;

    closed spec fn view(&self) -> State {
        State {
            cfg: self.cfg,
            target: self.target_mib as int,
            surplus: self.surplus_ticks as int,
            cooldown: self.cooldown as int,
        }
    }
}

impl Controller {
    /// A fresh controller lets the guest keep everything.
    pub fn new(cfg: Config) -> (c: Controller)
        requires
            cfg.valid(),
        ensures
            c@ == (State { cfg, target: cfg.max_mib as int, surplus: 0, cooldown: 0 }),
            c@.inv(),
    {
        Controller { cfg, target_mib: cfg.max_mib, surplus_ticks: 0, cooldown: 0 }
    }

    fn set_target(&mut self, target: u64) -> (action: Action)
        ensures
            final(self)@ == old(self)@.resized(target as int),
            action == Action::SetTarget(target),
    {
        self.surplus_ticks = 0;
        self.cooldown = self.cfg.cooldown_ticks;
        self.target_mib = target;
        Action::SetTarget(target)
    }

    pub fn target_mib(&self) -> (target: u64)
        ensures
            target == self@.target,
    {
        self.target_mib
    }

    /// Current balloon size (memory reclaimed from the guest), MiB.
    pub fn balloon_mib(&self) -> (mib: u64)
        requires
            self@.inv(),
        ensures
            mib == self@.balloon(),
    {
        self.cfg.max_mib.saturating_sub(self.target_mib)
    }

    /// Take one sample and decide.
    pub fn tick(&mut self, s: Sample) -> (action: Action)
        requires
            old(self)@.inv(),
            s.total_mib + old(self)@.cfg.headroom_mib <= u64::MAX,
        ensures
            final(self)@ == old(self)@.after(s),
            final(self)@.inv(),
            action == (if old(self)@.resizes(s) {
                Action::SetTarget(final(self)@.target as u64)
            } else {
                Action::Hold
            }),
    {
        let balloon: u64 = self.balloon_mib();
        let used: u64 = s.total_mib.saturating_sub(s.available_mib).saturating_sub(balloon);
        let stalled: bool = unwrap_or_zero(s.psi_some_avg10).exceeds(self.cfg.psi_deflate_threshold);
        if s.available_mib < self.cfg.low_water_mib || stalled {
            // Double the allowance each tick while pressure persists instead of
            // slamming to max. Pressure overrides the cooldown.
            if self.target_mib < self.cfg.max_mib {
                let doubled: u64 = self.target_mib * 2;
                let t: u64 = if doubled < self.cfg.max_mib { doubled } else { self.cfg.max_mib };
                return self.set_target(t);
            }
            self.surplus_ticks = 0;
            return Action::Hold;
        }
        if self.cooldown > 0 {
            self.cooldown = self.cooldown - 1;
            return Action::Hold;
        }
        let wanted: u64 = used + self.cfg.headroom_mib;
        let desired: u64 = if wanted < self.cfg.min_mib {
            self.cfg.min_mib
        } else if wanted > self.cfg.max_mib {
            self.cfg.max_mib
        } else {
            wanted
        };
        if desired > self.target_mib + self.cfg.deadband_mib {
            // Workload grew materially: deflate to fit immediately.
            return self.set_target(desired);
        }
        if desired > self.target_mib {
            // Within the deadband: tolerated, but not counted as surplus.
            self.surplus_ticks = 0;
            return Action::Hold;
        }
        if self.target_mib - desired < self.cfg.deadband_mib {
            self.surplus_ticks = 0;
            return Action::Hold;
        }
        if self.surplus_ticks + 1 < self.cfg.inflate_after_ticks {
            self.surplus_ticks = self.surplus_ticks + 1;
            return Action::Hold;
        }
        // One jump straight to the steady-state target.
        self.set_target(desired)
    }
}

/// Whatever the guest reports, the target stays between the floor and the
/// ceiling over any run of ticks.
pub proof fn target_stays_in_bounds(state: State, samples: Seq<Sample>)
    requires
        state.inv(),
    ensures
        state.run(samples).inv(),
        state.run(samples).cfg == state.cfg,
        state.cfg.min_mib <= state.run(samples).target <= state.cfg.max_mib,
    decreases samples.len(),
{
    if samples.len() > 0 {
        target_stays_in_bounds(state, samples.drop_last());
    }
}

/// Pressure never lowers the target, and below the ceiling it at least doubles
/// it or reaches the ceiling in that very tick, cooldown or not.
pub proof fn pressure_deflates_at_once(state: State, s: Sample)
    requires
        state.inv(),
        state.pressured(s),
    ensures
        state.after(s).target >= state.target,
        state.after(s).target >= 2 * state.target || state.after(s).target == state.cfg.max_mib,
        state.target < state.cfg.max_mib ==> state.resizes(s),
{
}

/// Under pressure that does not let up the ceiling is reached: `n` ticks
/// suffice as soon as the target doubled `n` times is at least the ceiling.
pub proof fn sustained_pressure_reaches_max(state: State, samples: Seq<Sample>)
    requires
        state.inv(),
        forall|i: int, t: State| 0 <= i < samples.len() && t.cfg == state.cfg ==> #[trigger] t.pressured(samples[i]),
    ensures
        state.run(samples).cfg == state.cfg,
        state.run(samples).target == state.cfg.max_mib || state.run(samples).target
            >= state.target * vstd::arithmetic::power2::pow2(samples.len()),
        state.target * vstd::arithmetic::power2::pow2(samples.len()) >= state.cfg.max_mib
            ==> state.run(samples).target == state.cfg.max_mib,
    decreases samples.len(),
{
    let n = samples.len();
    target_stays_in_bounds(state, samples);
    if n == 0 {
        vstd::arithmetic::power2::lemma2_to64();
    } else {
        let before = state.run(samples.drop_last());
        assert forall|i: int, t: State|
            0 <= i < samples.drop_last().len() && t.cfg == state.cfg implies #[trigger] t.pressured(
            samples.drop_last()[i],
        ) by {
            assert(samples.drop_last()[i] == samples[i]);
        }
        sustained_pressure_reaches_max(state, samples.drop_last());
        target_stays_in_bounds(state, samples.drop_last());
        assert(before.pressured(samples[n - 1]));
        vstd::arithmetic::power2::lemma_pow2_unfold(n);
        let p = vstd::arithmetic::power2::pow2((n - 1) as nat);
        assert(state.target * (2 * p) == 2 * (state.target * p)) by (nonlinear_arith);
    }
}

/// Memory is taken back only at the end of a full window of surplus: a tick
/// that lowers the target finds no pressure and no cooldown, and the window of
/// surplus ticks complete with this one.
pub proof fn reclaim_needs_sustained_surplus(state: State, s: Sample)
    requires
        state.inv(),
        state.after(s).target < state.target,
    ensures
        !state.pressured(s),
        state.cooldown == 0,
        state.surplus + 1 >= state.cfg.inflate_after_ticks,
        state.target - state.after(s).target >= state.cfg.deadband_mib,
{
}

/// Each tick adds at most one to the surplus count, so a run shorter than what
/// is missing from the window cannot lower the target.
pub proof fn no_reclaim_before_the_window(state: State, samples: Seq<Sample>)
    requires
        state.inv(),
        state.surplus + samples.len() < state.cfg.inflate_after_ticks,
    ensures
        state.run(samples).target >= state.target,
        state.run(samples).surplus <= state.surplus + samples.len(),
    decreases samples.len(),
{
    if samples.len() > 0 {
        no_reclaim_before_the_window(state, samples.drop_last());
        target_stays_in_bounds(state, samples.drop_last());
    }
}

/// After a resize the controller sits out its cooldown: as long as fewer
/// unpressured ticks than the cooldown have passed, nothing is resized.
pub proof fn cooldown_holds(state: State, samples: Seq<Sample>)
    requires
        state.inv(),
        samples.len() <= state.cooldown,
        forall|i: int, t: State| 0 <= i < samples.len() && t.cfg == state.cfg ==> !#[trigger] t.pressured(samples[i]),
    ensures
        state.run(samples) == (State { cooldown: state.cooldown - samples.len(), ..state }),
        samples.len() > 0 ==> !state.run(samples.drop_last()).resizes(samples.last()),
    decreases samples.len(),
{
    if samples.len() > 0 {
        let n = samples.len();
        assert forall|i: int, t: State|
            0 <= i < samples.drop_last().len() && t.cfg == state.cfg implies !#[trigger] t.pressured(
            samples.drop_last()[i],
        ) by {
            assert(samples.drop_last()[i] == samples[i]);
        }
        cooldown_holds(state, samples.drop_last());
        assert(!state.run(samples.drop_last()).pressured(samples[n - 1]));
    }
}

/// Sub-deadband changes are absorbed: without pressure a tick that resizes
/// moves the target by at least the deadband.
pub proof fn deadband_absorbs_wiggle(state: State, s: Sample)
    requires
        state.inv(),
        !state.pressured(s),
        state.resizes(s),
    ensures
        state.after(s).target - state.target > state.cfg.deadband_mib || state.target - state.after(
            s,
        ).target >= state.cfg.deadband_mib,
{
}

/// What a guest should keep of its memory: what its workloads use, the pages in
/// the balloon not counted, and the headroom; no less than the floor and no
/// more than the ceiling.
pub open spec fn fitting(state: State, s: Sample) -> int {
    let held = state.cfg.max_mib - state.target;
    let busy = s.total_mib - s.available_mib - held;
    let wanted = (if s.total_mib >= s.available_mib && busy > 0 {
        busy
    } else {
        0
    }) + state.cfg.headroom_mib;
    if wanted > state.cfg.max_mib {
        state.cfg.max_mib as int
    } else if wanted < state.cfg.min_mib {
        state.cfg.min_mib as int
    } else {
        wanted
    }
}

/// A guest is pressed where it has little memory left, or stalls for it.
pub proof fn when_a_guest_is_pressed(state: State, s: Sample)
    ensures
        s.available_mib < state.cfg.low_water_mib ==> state.pressured(s),
        (s.psi_some_avg10 matches Some(p) && p.greater(state.cfg.psi_deflate_threshold))
            ==> state.pressured(s),
        s.available_mib >= state.cfg.low_water_mib && (s.psi_some_avg10 matches Some(p)
            && !p.greater(state.cfg.psi_deflate_threshold)) ==> !state.pressured(s),
{
}

/// Under pressure the guest gets twice what it has, as far as there is that
/// much, in that very tick.
pub proof fn pressure_doubles(state: State, s: Sample)
    requires
        state.inv(),
        state.pressured(s),
    ensures
        state.after(s).target == (if 2 * state.target < state.cfg.max_mib {
            2 * state.target
        } else {
            state.cfg.max_mib as int
        }),
        state.target < state.cfg.max_mib ==> state.after(s).cooldown == state.cfg.cooldown_ticks,
        state.after(s).surplus == 0,
{
}

/// Without pressure a resize fits the workload, and is followed by a cooldown.
pub proof fn a_resize_fits_the_workload(state: State, s: Sample)
    requires
        state.inv(),
        !state.pressured(s),
    ensures
        state.resizes(s) ==> state.after(s).target == fitting(state, s) && state.after(s).cooldown
            == state.cfg.cooldown_ticks && state.after(s).surplus == 0,
        !state.resizes(s) ==> state.after(s).target == state.target,
{
}

/// A workload that outgrew its memory by more than the deadband gets it at once,
/// unless a resize is still settling.
pub proof fn growth_is_answered_at_once(state: State, s: Sample)
    requires
        state.inv(),
        !state.pressured(s),
        state.cooldown == 0,
        fitting(state, s) > state.target + state.cfg.deadband_mib,
    ensures
        state.resizes(s),
        state.after(s).target == fitting(state, s),
{
}

/// A surplus of at least the deadband is counted tick by tick, and taken back
/// when the window is full; a tick without one starts the count anew.
pub proof fn a_lasting_surplus_is_taken_back(state: State, s: Sample)
    requires
        state.inv(),
        !state.pressured(s),
        state.cooldown == 0,
    ensures
        state.target - fitting(state, s) >= state.cfg.deadband_mib && fitting(state, s)
            <= state.target ==> (if state.surplus + 1 >= state.cfg.inflate_after_ticks {
            state.after(s).target == fitting(state, s)
        } else {
            state.after(s).surplus == state.surplus + 1 && state.after(s).target == state.target
        }),
        fitting(state, s) <= state.target + state.cfg.deadband_mib && (fitting(state, s)
            > state.target || state.target - fitting(state, s) < state.cfg.deadband_mib)
            ==> state.after(s).surplus == 0 && state.after(s).target == state.target,
{
}

} // verus!

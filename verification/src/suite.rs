//! The balloon contract suite: what is measured, and what counts as a failure.
//!
//! The contract is bounded growth and re-inflation, never shrinkage after a
//! workload. Each check takes what was measured and gives the texts of what
//! failed, in the order in which it is looked at.

use crate::memory::less;
use crate::text::{cat3, decimal_str, owned};
use vstd::prelude::*;

verus! {

/// The name of the hogs.
pub const HOG_NAME: &'static str = "bt-balloon-hog";

/// The ceilings of the two engines that the suite boots, in MiB.
pub const LARGE_MIB: u64 = 32768;

pub const SMALL_MIB: u64 = 16384;

/// A check: what must hold, and what it is called.
pub open spec fn failures_of(checks: Seq<(bool, Seq<char>)>) -> Seq<Seq<char>>
    decreases checks.len(),
{
    if checks.len() == 0 {
        Seq::empty()
    } else {
        let before = failures_of(checks.drop_last());
        if checks.last().0 {
            before
        } else {
            before.push(checks.last().1)
        }
    }
}

/// Record a check that did not hold.
fn note(failed: &mut Vec<String>, holds: bool, what: &str, Ghost(seen): Ghost<Seq<(bool, Seq<char>)>>)
    requires
        crate::text::views(old(failed)@) == failures_of(seen),
    ensures
        crate::text::views(final(failed)@) == failures_of(seen.push((holds, what@))),
{
    let ghost all = seen.push((holds, what@));
    assert(all.drop_last() =~= seen);
    if !holds {
        let ghost now = crate::text::views(failed@);
        failed.push(owned(what));
        assert(crate::text::views(failed@) =~= now.push(what@));
    }
}

fn no_failures() -> (v: Vec<String>)
    ensures
        crate::text::views(v@) == failures_of(Seq::empty()),
{
    let v: Vec<String> = Vec::new();
    assert(crate::text::views(v@) =~= failures_of(Seq::empty()));
    v
}

/// Idle reclaim: most of the memory is held back, and the host is charged for
/// little.
pub open spec fn idle_checks(held: u64, fp: u64) -> Seq<(bool, Seq<char>)> {
    seq![
        (held > 24576, "idle: balloon holds >75% of max"@),
        (fp < 4096, "idle: host footprint < 4 GiB"@),
    ]
}

pub fn idle_failures(held: u64, fp: u64) -> (v: Vec<String>)
    ensures
        crate::text::views(v@) == failures_of(idle_checks(held, fp)),
{
    let mut v: Vec<String> = no_failures();
    let ghost all = idle_checks(held, fp);
    note(&mut v, held > 24576, "idle: balloon holds >75% of max", Ghost(Seq::empty()));
    assert(Seq::<(bool, Seq<char>)>::empty().push(all[0]) =~= all.take(1));
    note(&mut v, fp < 4096, "idle: host footprint < 4 GiB", Ghost(all.take(1)));
    assert(all.take(1).push(all[1]) =~= all);
    v
}

/// A cycle of a hog that takes memory and lets it go.
#[derive(Debug, Clone, Copy, PartialEq, Eq, Structural)]
pub struct HogCycle {
    pub peak_fp: u64,
    pub min_held: u64,
    /// Whether the balloon was back in time.
    pub reinflated: bool,
    pub settled_fp: u64,
    pub settled_held: u64,
    pub hog_ok: bool,
}

/// The highest footprint and the lowest hold seen while a hog runs.
#[derive(Debug, Clone, Copy, PartialEq, Eq, Structural)]
pub struct Extremes {
    pub peak_fp: u64,
    pub min_held: u64,
}

impl Extremes {
    pub fn seen(&self, fp: u64, held: u64) -> (e: Extremes)
        ensures
            e.peak_fp == (if fp > self.peak_fp {
                fp
            } else {
                self.peak_fp
            }),
            e.min_held == (if held < self.min_held {
                held
            } else {
                self.min_held
            }),
    {
        Extremes {
            peak_fp: if fp > self.peak_fp {
                fp
            } else {
                self.peak_fp
            },
            min_held: if held < self.min_held {
                held
            } else {
                self.min_held
            },
        }
    }
}

/// Whether the balloon is back near its idle level: within two gibibytes.
pub fn is_reinflated(held: u64, idle_held: u64) -> (r: bool)
    ensures
        r == (held >= less(idle_held as int, 2048)),
{
    if idle_held > 2048 {
        held >= idle_held - 2048
    } else {
        true
    }
}

/// How long the balloon has to come back after a hog, in nanoseconds.
pub const REINFLATE_NS: u64 = 120000000000;

/// Where the wait for the balloon has got to.
#[derive(Debug, Clone, Copy, PartialEq, Eq, Structural)]
pub enum Reinflate {
    /// It is back.
    Back,
    /// Look again.
    Wait,
    /// It did not come back in time.
    GivenUp,
}

/// One look at the balloon after a hog: what is held, where the engine answered,
/// and the time since the release. A look that starts in time counts, however
/// late its answer.
pub fn reinflate(held: Option<u64>, idle_held: u64, elapsed_ns: u64) -> (r: Reinflate)
    ensures
        r == (if held is Some && held->0 >= less(idle_held as int, 2048) {
            Reinflate::Back
        } else if elapsed_ns < REINFLATE_NS {
            Reinflate::Wait
        } else {
            Reinflate::GivenUp
        }),
{
    let back: bool = match held {
        Some(h) => is_reinflated(h, idle_held),
        None => false,
    };
    if back {
        Reinflate::Back
    } else if elapsed_ns < REINFLATE_NS {
        Reinflate::Wait
    } else {
        Reinflate::GivenUp
    }
}

/// A single hog: it completes, the balloon makes room for it and comes back,
/// and the footprint stays within what the workload reached.
pub open spec fn hog_checks(
    c: HogCycle,
    idle_held: u64,
    idle_fp: u64,
    oom_same: bool,
    survived: bool,
) -> Seq<(bool, Seq<char>)> {
    seq![
        (c.hog_ok, "hog: container completed (no OOM)"@),
        (c.peak_fp > idle_fp + 3072, "hog: footprint grew >3 GiB under load"@),
        (c.min_held < idle_held, "hog: balloon deflated for the workload"@),
        (c.reinflated, "hog: balloon re-inflated <=120s after release"@),
        (c.settled_fp <= c.peak_fp + 512, "hog: settled footprint bounded by workload peak"@),
        (oom_same, "hog: no guest OOM kills"@),
        (survived, "hog: guest survived"@),
    ]
}

pub fn hog_failures(
    c: &HogCycle,
    idle_held: u64,
    idle_fp: u64,
    oom_same: bool,
    survived: bool,
) -> (v: Vec<String>)
    ensures
        crate::text::views(v@) == failures_of(
            hog_checks(*c, idle_held, idle_fp, oom_same, survived),
        ),
{
    let mut v: Vec<String> = no_failures();
    let ghost all = hog_checks(*c, idle_held, idle_fp, oom_same, survived);
    let grew: bool = c.peak_fp as u128 > idle_fp as u128 + 3072;
    let bounded: bool = c.settled_fp as u128 <= c.peak_fp as u128 + 512;
    note(&mut v, c.hog_ok, "hog: container completed (no OOM)", Ghost(Seq::empty()));
    assert(Seq::<(bool, Seq<char>)>::empty().push(all[0]) =~= all.take(1));
    note(&mut v, grew, "hog: footprint grew >3 GiB under load", Ghost(all.take(1)));
    assert(all.take(1).push(all[1]) =~= all.take(2));
    note(
        &mut v,
        c.min_held < idle_held,
        "hog: balloon deflated for the workload",
        Ghost(all.take(2)),
    );
    assert(all.take(2).push(all[2]) =~= all.take(3));
    note(
        &mut v,
        c.reinflated,
        "hog: balloon re-inflated <=120s after release",
        Ghost(all.take(3)),
    );
    assert(all.take(3).push(all[3]) =~= all.take(4));
    note(
        &mut v,
        bounded,
        "hog: settled footprint bounded by workload peak",
        Ghost(all.take(4)),
    );
    assert(all.take(4).push(all[4]) =~= all.take(5));
    note(&mut v, oom_same, "hog: no guest OOM kills", Ghost(all.take(5)));
    assert(all.take(5).push(all[5]) =~= all.take(6));
    note(&mut v, survived, "hog: guest survived", Ghost(all.take(6)));
    assert(all.take(6).push(all[6]) =~= all);
    v
}

/// How many cycles the drift check runs.
pub fn drift_cycles(quick: bool, cycles: u32) -> (n: u32)
    ensures
        n == (if quick {
            3
        } else if cycles > 2 {
            cycles
        } else {
            2
        }),
{
    if quick {
        3
    } else if cycles > 2 {
        cycles
    } else {
        2
    }
}

/// What is wrong with a drift cycle: that it did not complete, or that the
/// balloon did not come back.
pub fn drift_failure(i: u32, c: &HogCycle) -> (r: Option<String>)
    ensures
        crate::text::opt_view(r) == (if c.hog_ok && c.reinflated {
            None
        } else {
            Some("drift: cycle "@ + crate::text::decimal(i as nat) + " completed + re-inflated"@)
        }),
{
    if c.hog_ok && c.reinflated {
        None
    } else {
        Some(cat3("drift: cycle ", decimal_str(i as u64).as_str(), " completed + re-inflated"))
    }
}

/// How long concurrent hogs are watched, in nanoseconds.
pub const CONCURRENT_NS: u64 = 240000000000;

/// Whether concurrent hogs are watched on: one of them runs, and there is time.
pub fn watch_on(any_runs: bool, elapsed_ns: u64) -> (r: bool)
    ensures
        r == (any_runs && elapsed_ns < CONCURRENT_NS),
{
    any_runs && elapsed_ns < CONCURRENT_NS
}

/// Hogs side by side: all complete, and deflation keeps pace.
pub open spec fn concurrent_checks(all_ok: bool, oom_same: bool, survived: bool) -> Seq<
    (bool, Seq<char>),
> {
    seq![
        (all_ok, "concurrent: all 4 hogs completed"@),
        (oom_same, "concurrent: no guest OOM kills (deflate kept pace)"@),
        (survived, "concurrent: guest survived"@),
    ]
}

pub fn concurrent_failures(all_ok: bool, oom_same: bool, survived: bool) -> (v: Vec<String>)
    ensures
        crate::text::views(v@) == failures_of(concurrent_checks(all_ok, oom_same, survived)),
{
    let mut v: Vec<String> = no_failures();
    let ghost all = concurrent_checks(all_ok, oom_same, survived);
    note(&mut v, all_ok, "concurrent: all 4 hogs completed", Ghost(Seq::empty()));
    assert(Seq::<(bool, Seq<char>)>::empty().push(all[0]) =~= all.take(1));
    note(
        &mut v,
        oom_same,
        "concurrent: no guest OOM kills (deflate kept pace)",
        Ghost(all.take(1)),
    );
    assert(all.take(1).push(all[1]) =~= all.take(2));
    note(&mut v, survived, "concurrent: guest survived", Ghost(all.take(2)));
    assert(all.take(2).push(all[2]) =~= all);
    v
}

/// The size of a hog that takes 95 percent of what the guest has left.
pub fn ceiling_hog_mib(avail: u64) -> (n: u64)
    ensures
        n == avail * 95 / 100,
{
    (avail as u128 * 95 / 100) as u64
}

/// Pressure at the ceiling: the hog may die, the engine may not.
pub open spec fn ceiling_checks(agent: bool, engine: bool) -> Seq<(bool, Seq<char>)> {
    seq![
        (agent, "ceiling: guest agent survived"@),
        (engine, "ceiling: container engine still answers"@),
    ]
}

pub fn ceiling_failures(agent: bool, engine: bool) -> (v: Vec<String>)
    ensures
        crate::text::views(v@) == failures_of(ceiling_checks(agent, engine)),
{
    let mut v: Vec<String> = no_failures();
    let ghost all = ceiling_checks(agent, engine);
    note(&mut v, agent, "ceiling: guest agent survived", Ghost(Seq::empty()));
    assert(Seq::<(bool, Seq<char>)>::empty().push(all[0]) =~= all.take(1));
    note(&mut v, engine, "ceiling: container engine still answers", Ghost(all.take(1)));
    assert(all.take(1).push(all[1]) =~= all);
    v
}

/// How often the target changed from one sample to the next.
pub open spec fn changes(targets: Seq<u64>) -> nat
    decreases targets.len(),
{
    if targets.len() < 2 {
        0
    } else {
        changes(targets.drop_last()) + (if targets[targets.len() - 2] != targets.last() {
            1nat
        } else {
            0nat
        })
    }
}

pub fn resizes(targets: &Vec<u64>) -> (n: usize)
    ensures
        n == changes(targets@),
{
    let mut n: usize = 0;
    if targets.len() == 0 {
        return 0;
    }
    let mut i: usize = 1;
    while i < targets.len()
        invariant
            1 <= i <= targets@.len(),
            n < i,
            n == changes(targets@.take(i as int)),
        decreases targets@.len() - i,
    {
        proof {
            let longer = targets@.take(i as int + 1);
            assert(longer.drop_last() =~= targets@.take(i as int));
            assert(longer.last() == targets@[i as int]);
            assert(longer[longer.len() - 2] == targets@[i - 1]);
        }
        if targets[i - 1] != targets[i] {
            n = n + 1;
        }
        i = i + 1;
    }
    assert(targets@.take(targets@.len() as int) =~= targets@);
    n
}

/// How long the sawtooth runs.
pub fn sawtooth_secs(quick: bool) -> (n: u64)
    ensures
        n == (if quick {
            180u64
        } else {
            600u64
        }),
{
    if quick {
        180
    } else {
        600
    }
}

/// A sawtooth of hogs: no kills, at most eight resizes a cycle, and the guest
/// is still there.
pub open spec fn sawtooth_checks(oom_same: bool, resizes: usize, cycles: u32, survived: bool) -> Seq<
    (bool, Seq<char>),
> {
    seq![
        (oom_same, "sawtooth: no guest OOM kills across the window"@),
        (resizes <= 8 * cycles, "sawtooth: controller does not thrash (<=8 resizes/cycle)"@),
        (survived, "sawtooth: guest survived"@),
    ]
}

pub fn sawtooth_failures(oom_same: bool, resizes: usize, cycles: u32, survived: bool) -> (v: Vec<
    String,
>)
    ensures
        crate::text::views(v@) == failures_of(
            sawtooth_checks(oom_same, resizes, cycles, survived),
        ),
{
    let mut v: Vec<String> = no_failures();
    let ghost all = sawtooth_checks(oom_same, resizes, cycles, survived);
    let calm: bool = resizes as u64 <= 8 * (cycles as u64);
    note(&mut v, oom_same, "sawtooth: no guest OOM kills across the window", Ghost(Seq::empty()));
    assert(Seq::<(bool, Seq<char>)>::empty().push(all[0]) =~= all.take(1));
    note(
        &mut v,
        calm,
        "sawtooth: controller does not thrash (<=8 resizes/cycle)",
        Ghost(all.take(1)),
    );
    assert(all.take(1).push(all[1]) =~= all.take(2));
    note(&mut v, survived, "sawtooth: guest survived", Ghost(all.take(2)));
    assert(all.take(2).push(all[2]) =~= all);
    v
}

/// A wait for the balloon to come to rest: three samples in a row within 256
/// MiB, and never in the first minute, when it rests at nothing.
#[derive(Debug, Clone, Copy, PartialEq, Eq, Structural)]
pub struct Settle {
    pub stable: u32,
    pub last_held: u64,
}

pub open spec fn apart(a: u64, b: u64) -> int {
    if a > b {
        a - b
    } else {
        b - a
    }
}

impl Settle {
    pub fn new() -> (s: Settle)
        ensures
            s.stable == 0,
            s.last_held == 0,
    {
        Settle { stable: 0, last_held: 0 }
    }

    /// Another sample; true where the wait is over, by rest or by time, but not
    /// within the first minute.
    pub fn sample(&mut self, held: u64, elapsed_ns: u64, timeout_s: u32) -> (over: bool)
        requires
            old(self).stable < 3,
        ensures
            final(self).last_held == held,
            final(self).stable == (if apart(held, old(self).last_held) <= 256 && held > 0
                && elapsed_ns > 60000000000 {
                old(self).stable + 1
            } else {
                0
            }),
            over == (elapsed_ns > 60000000000 && (final(self).stable >= 3 || elapsed_ns > timeout_s
                * 1000000000)),
    {
        let diff: u64 = if held > self.last_held {
            held - self.last_held
        } else {
            self.last_held - held
        };
        if diff <= 256 && held > 0 && elapsed_ns > 60000000000 {
            self.stable = self.stable + 1;
        } else {
            self.stable = 0;
        }
        self.last_held = held;
        elapsed_ns > 60000000000 && (self.stable >= 3 || elapsed_ns > (timeout_s as u64)
            * 1000000000)
    }
}

/// What the suite exits with.
pub fn exit_code(failures: usize, regressions: usize) -> (n: i32)
    ensures
        n == (if failures == 0 && regressions == 0 {
            0i32
        } else {
            1i32
        }),
{
    if failures == 0 && regressions == 0 {
        0
    } else {
        1
    }
}

/// What does not hold is named, and nothing else is; nothing is named just
/// where everything holds.
pub proof fn what_fails_is_named(checks: Seq<(bool, Seq<char>)>, what: Seq<char>)
    ensures
        failures_of(checks).contains(what) <==> exists|i: int|
            0 <= i < checks.len() && #[trigger] checks[i] == (false, what),
        failures_of(checks).len() == 0 <==> forall|i: int|
            0 <= i < checks.len() ==> (#[trigger] checks[i]).0,
    decreases checks.len(),
{
    if checks.len() > 0 {
        let short = checks.drop_last();
        let n = checks.len() - 1;
        let (a, b) = (failures_of(short), failures_of(checks));
        what_fails_is_named(short, what);
        assert(checks[n] == checks.last());
        if a.contains(what) {
            let i = choose|i: int| 0 <= i < a.len() && a[i] == what;
            assert(b[i] == what);
            let k = choose|k: int| 0 <= k < short.len() && #[trigger] short[k] == (false, what);
            assert(checks[k] == short[k]);
        }
        if checks.last() == (false, what) {
            assert(b[b.len() - 1] == what);
        }
        if b.contains(what) && checks.last() != (false, what) {
            let i = choose|i: int| 0 <= i < b.len() && b[i] == what;
            if i < a.len() {
                assert(a[i] == what);
            }
        }
        if exists|i: int| 0 <= i < checks.len() && #[trigger] checks[i] == (false, what) {
            let i = choose|i: int| 0 <= i < checks.len() && #[trigger] checks[i] == (false, what);
            if i < n {
                assert(short[i] == checks[i]);
            }
        }
        if b.len() == 0 {
            assert forall|i: int| 0 <= i < checks.len() implies (#[trigger] checks[i]).0 by {
                if i < n {
                    assert(short[i].0);
                }
            }
        }
        if forall|i: int| 0 <= i < checks.len() ==> (#[trigger] checks[i]).0 {
            assert forall|i: int| 0 <= i < short.len() implies (#[trigger] short[i]).0 by {
                assert(checks[i].0);
            }
        }
    }
}

/// When the engine passes: idle, with a hog, with several, at the ceiling and
/// under a sawtooth.
pub proof fn when_the_engine_passes(
    held: u64,
    fp: u64,
    c: HogCycle,
    oom_same: bool,
    survived: bool,
    other: bool,
    resizes: usize,
    cycles: u32,
)
    ensures
        failures_of(idle_checks(held, fp)).len() == 0 <==> held > 24576 && fp < 4096,
        failures_of(hog_checks(c, held, fp, oom_same, survived)).len() == 0 <==> c.hog_ok
            && c.peak_fp > fp + 3072 && c.min_held < held && c.reinflated && c.settled_fp
            <= c.peak_fp + 512 && oom_same && survived,
        failures_of(concurrent_checks(other, oom_same, survived)).len() == 0 <==> other && oom_same
            && survived,
        failures_of(ceiling_checks(other, survived)).len() == 0 <==> other && survived,
        failures_of(sawtooth_checks(oom_same, resizes, cycles, survived)).len() == 0 <==> oom_same
            && resizes <= 8 * cycles && survived,
{
    let a = idle_checks(held, fp);
    let b = hog_checks(c, held, fp, oom_same, survived);
    let d = concurrent_checks(other, oom_same, survived);
    let e = ceiling_checks(other, survived);
    let s = sawtooth_checks(oom_same, resizes, cycles, survived);
    what_fails_is_named(a, Seq::empty());
    what_fails_is_named(b, Seq::empty());
    what_fails_is_named(d, Seq::empty());
    what_fails_is_named(e, Seq::empty());
    what_fails_is_named(s, Seq::empty());
    assert(a[0].0 == (held > 24576) && a[1].0 == (fp < 4096));
    assert(b[0].0 == c.hog_ok && b[1].0 == (c.peak_fp > fp + 3072) && b[2].0 == (c.min_held < held)
        && b[3].0 == c.reinflated && b[4].0 == (c.settled_fp <= c.peak_fp + 512) && b[5].0
        == oom_same && b[6].0 == survived);
    assert(d[0].0 == other && d[1].0 == oom_same && d[2].0 == survived);
    assert(e[0].0 == other && e[1].0 == survived);
    assert(s[0].0 == oom_same && s[1].0 == (resizes <= 8 * cycles) && s[2].0 == survived);
}

/// A target that stays is no change, and one that differs from the last is one.
pub proof fn when_a_target_changes(targets: Seq<u64>, t: u64)
    requires
        targets.len() > 0,
    ensures
        t == targets.last() ==> changes(targets.push(t)) == changes(targets),
        t != targets.last() ==> changes(targets.push(t)) == changes(targets) + 1,
        changes(seq![t]) == 0,
{
    assert(targets.push(t).drop_last() =~= targets);
}

} // verus!

//! Starting, stopping, listing and removing vessels.
//!
//! Each operation is a decision on what was found, followed where it has to
//! wait by one decision per look at the worker. The caller does the work.

use crate::detach::{Detached, Stdio};
use crate::paths::{join, joined_path};
use crate::spec::{SpecView, VmSpec};
use crate::text::{decimal_str, opt_owned, owned, parse_dec_range, same, to_chars, trim};
use crate::vessels::{
    dir_of, in_order, inserted, lex_le, name_problem, text_le, validate_name, vessel_dir, VesselError, VesselErrorView,
};
use vstd::prelude::*;

verus! {

/// What kind of host this is, as far as vessels care.
#[derive(Debug, Clone, Copy, PartialEq, Eq, Structural)]
pub struct HostKind {
    pub macos: bool,
    /// x86_64 Linux or Windows: libkrun can save and resume machine state.
    pub krun_state: bool,
}

/// A process id as the pid file holds it.
pub open spec fn pid_text(s: Seq<char>) -> Option<int> {
    let t = crate::text::trimmed(s);
    if t.len() > 0 && t[0] == '-' {
        let d = t.skip(1);
        if d.len() > 0 && crate::text::all_digits(d) && crate::text::dec_value(d) <= 0x8000_0000 {
            Some(-(crate::text::dec_value(d) as int))
        } else {
            None
        }
    } else {
        match crate::text::parse_dec(t, 0x7fff_ffff) {
            Some(n) => Some(n as int),
            None => None,
        }
    }
}

/// Read a process id: a decimal number of 32 bits, with a sign if any.
pub fn parse_pid(s: &str) -> (r: Option<i32>)
    ensures
        match r {
            Some(p) => pid_text(s@) == Some(p as int),
            None => pid_text(s@) is None,
        },
{
    let t: String = trim(s);
    let v: Vec<char> = to_chars(t.as_str());
    let n: usize = v.len();
    if n > 0 && v[0] == '-' {
        proof {
            assert(v@.subrange(1, n as int) =~= t@.skip(1));
        }
        if n == 1 || v[1] == '+' {
            proof {
                let d = t@.skip(1);
                if n > 1 {
                    assert(d[0] == v@[1]);
                    assert(!crate::text::is_digit(d[0]));
                }
            }
            return None;
        }
        assert(t@.skip(1)[0] == v@[1]);
        return match parse_dec_range(&v, 1, n, 0x8000_0000) {
            Some(m) => Some((0 - m as i64) as i32),
            None => None,
        };
    }
    assert(v@.subrange(0, n as int) =~= t@);
    match parse_dec_range(&v, 0, n, 0x7fff_ffff) {
        Some(m) => Some(m as i32),
        None => None,
    }
}

/// The process of a vessel, if its pid file names one that is alive.
pub fn live_pid(pid_file: &Option<String>, alive: bool) -> (r: Option<i32>)
    ensures
        match r {
            Some(p) => runs(crate::text::opt_view(*pid_file), alive) && pid_text(pid_file->0@)
                == Some(p as int),
            None => !runs(crate::text::opt_view(*pid_file), alive),
        },
{
    match pid_file {
        None => None,
        Some(s) => match parse_pid(s.as_str()) {
            None => None,
            Some(p) => if alive {
                Some(p)
            } else {
                None
            },
        },
    }
}

/// The size of a state file in MiB: what is allocated, else its length, else
/// nothing.
pub fn physical_size_mb(physical: Option<u64>, logical: Option<u64>) -> (mb: u64)
    ensures
        mb == (match physical {
            Some(n) => n,
            None => match logical {
                Some(n) => n,
                None => 0,
            },
        }) / 1048576,
{
    let bytes: u64 = match physical {
        Some(n) => n,
        None => match logical {
            Some(n) => n,
            None => 0,
        },
    };
    bytes / 1048576
}

/// The MAC address of five bytes: locally administered, unicast.
pub open spec fn mac_text(b: Seq<u8>) -> Seq<char> {
    "02:"@ + crate::text::hex_of(b.subrange(0, 1)) + ":"@ + crate::text::hex_of(b.subrange(1, 2))
        + ":"@ + crate::text::hex_of(b.subrange(2, 3)) + ":"@ + crate::text::hex_of(
        b.subrange(3, 4),
    ) + ":"@ + crate::text::hex_of(b.subrange(4, 5))
}

/// The MAC address of five random bytes.
pub fn random_mac(b: &[u8]) -> (s: String)
    requires
        b@.len() == 5,
    ensures
        s@ == mac_text(b@),
{
    let h0: String = crate::text::hex_lower(vstd::slice::slice_subrange(b, 0, 1));
    let h1: String = crate::text::hex_lower(vstd::slice::slice_subrange(b, 1, 2));
    let h2: String = crate::text::hex_lower(vstd::slice::slice_subrange(b, 2, 3));
    let h3: String = crate::text::hex_lower(vstd::slice::slice_subrange(b, 3, 4));
    let h4: String = crate::text::hex_lower(vstd::slice::slice_subrange(b, 4, 5));
    let s1: String = crate::text::cat5("02:", h0.as_str(), ":", h1.as_str(), ":");
    let s2: String = crate::text::cat5(s1.as_str(), h2.as_str(), ":", h3.as_str(), ":");
    let s: String = crate::text::cat2(s2.as_str(), h4.as_str());
    s
}

/// The `cp` option that makes a copy-on-write clone; none where files can only
/// be copied.
pub fn clone_file(windows: bool, macos: bool) -> (flag: Option<&'static str>)
    ensures
        windows ==> flag is None,
        !windows && macos ==> flag is Some && flag->0@ == "-c"@,
        !windows && !macos ==> flag is Some && flag->0@ == "--reflink=auto"@,
{
    if windows {
        None
    } else if macos {
        Some("-c")
    } else {
        Some("--reflink=auto")
    }
}

// Starting.

/// A vessel that just came up, or resumed.
#[derive(Debug)]
pub struct Started {
    pub resumed: bool,
    pub boot_ms: u64,
    pub kernel: String,
    pub agent_version: String,
}

#[derive(Debug)]
pub enum StartOutcome {
    AlreadyRunning,
    Started(Started),
}

/// What starting a vessel comes to.
#[derive(Debug)]
pub enum StartDecision {
    AlreadyRunning,
    Refuse(VesselError),
    /// Launch a worker with this description.
    Launch { vz: bool, spec: VmSpec },
}

#[verifier::ext_equal]
pub enum StartView {
    AlreadyRunning,
    Refuse(VesselErrorView),
    Launch { vz: bool, spec: SpecView },
}

impl View for StartDecision {
    type V = StartView;

    open spec fn view(&self) -> StartView {
        match self {
            StartDecision::AlreadyRunning => StartView::AlreadyRunning,
            StartDecision::Refuse(e) => StartView::Refuse(e@),
            StartDecision::Launch { vz, spec } => StartView::Launch { vz: *vz, spec: spec@ },
        }
    }
}

/// A change that starting a vessel makes, in its directory or by a process.
#[derive(Debug, Clone, Copy, PartialEq, Eq, Structural)]
pub enum StartEffect {
    /// Start `console.log` afresh.
    FreshConsoleLog,
    /// Start `worker.log` afresh.
    FreshWorkerLog,
    SpawnWorker,
    /// Write the worker's process id to `pid`.
    WritePid,
}

/// The changes of a start, in order: a worker is launched or nothing changes.
/// Under vz the framework writes the console itself.
pub open spec fn effects_of(d: StartView) -> Seq<StartEffect> {
    match d {
        StartView::Launch { vz: true, .. } => seq![
            StartEffect::FreshWorkerLog,
            StartEffect::SpawnWorker,
            StartEffect::WritePid,
        ],
        StartView::Launch { vz: false, .. } => seq![
            StartEffect::FreshConsoleLog,
            StartEffect::FreshWorkerLog,
            StartEffect::SpawnWorker,
            StartEffect::WritePid,
        ],
        _ => Seq::empty(),
    }
}

impl StartDecision {
    /// What to do, in order.
    pub fn effects(&self) -> (r: Vec<StartEffect>)
        ensures
            r@ == effects_of(self@),
    {
        match self {
            StartDecision::Launch { vz, spec } => if *vz {
                vec![
                    StartEffect::FreshWorkerLog,
                    StartEffect::SpawnWorker,
                    StartEffect::WritePid,
                ]
            } else {
                vec![
                    StartEffect::FreshConsoleLog,
                    StartEffect::FreshWorkerLog,
                    StartEffect::SpawnWorker,
                    StartEffect::WritePid,
                ]
            },
            _ => Vec::new(),
        }
    }
}

/// The backend of a description: krun unless it names another.
pub open spec fn backend_of(s: SpecView) -> Seq<char> {
    match s.backend {
        Some(b) => b,
        None => "krun"@,
    }
}

/// What a start comes to. `restore` is saved machine state to resume from. For
/// krun it goes into the worker's description alone; the one on disk is left
/// as it is, so that later starts boot normally.
pub open spec fn start_of(
    name: Seq<char>,
    spec: SpecView,
    running: bool,
    restore: Option<Seq<char>>,
    host: HostKind,
) -> StartView {
    let vz = backend_of(spec) == "vz"@;
    match name_problem(name) {
        Some(p) => StartView::Refuse(p),
        None => if running {
            StartView::AlreadyRunning
        } else if restore is Some && !vz && !host.krun_state {
            StartView::Refuse(VesselErrorView::NoRestoreHere)
        } else {
            StartView::Launch {
                vz,
                spec: if vz {
                    spec
                } else {
                    SpecView { restore_path: restore, ..spec }
                },
            }
        },
    }
}

/// Decide on a start that boots.
pub fn start(name: &str, spec: VmSpec, running: bool, host: HostKind) -> (d: StartDecision)
    ensures
        d@ == start_of(name@, spec@, running, None, host),
{
    start_with(name, spec, running, &None, host)
}

/// Decide on a start, from saved machine state if there is any.
pub fn start_with(
    name: &str,
    spec: VmSpec,
    running: bool,
    restore: &Option<String>,
    host: HostKind,
) -> (d: StartDecision)
    ensures
        d@ == start_of(name@, spec@, running, crate::text::opt_view(*restore), host),
{
    match validate_name(name) {
        Err(e) => {
            return StartDecision::Refuse(e);
        },
        Ok(()) => {},
    }
    if running {
        return StartDecision::AlreadyRunning;
    }
    let vz: bool = match &spec.backend {
        Some(b) => same(b.as_str(), "vz"),
        None => false,
    };
    proof {
        reveal_strlit("krun");
        reveal_strlit("vz");
        assert("krun"@.len() != "vz"@.len());
    }
    if restore.is_some() && !vz && !host.krun_state {
        return StartDecision::Refuse(VesselError::NoRestoreHere);
    }
    if vz {
        return StartDecision::Launch { vz, spec };
    }
    let s = VmSpec {
        name: spec.name,
        cpus: spec.cpus,
        mem_mib: spec.mem_mib,
        boot: spec.boot,
        disks: spec.disks,
        shares: spec.shares,
        net: spec.net,
        vsock: spec.vsock,
        console: spec.console,
        balloon: spec.balloon,
        rng: spec.rng,
        rosetta: spec.rosetta,
        gpu: spec.gpu,
        control_path: spec.control_path,
        restore_path: opt_owned(restore),
        vsock_ports: spec.vsock_ports,
        backend: spec.backend,
        mac: spec.mac,
        machine_id: spec.machine_id,
    };
    StartDecision::Launch { vz, spec: s }
}

/// What the pid file of a vessel holds.
pub fn pid_record(pid: u32) -> (s: String)
    ensures
        s@ == crate::text::decimal(pid as nat),
{
    decimal_str(pid as u64)
}

/// Whether a vessel runs: its pid file names a process, and that is alive.
pub open spec fn runs(pid_file: Option<Seq<char>>, alive: bool) -> bool {
    alive && pid_file is Some && pid_text(pid_file->0) is Some
}

pub proof fn lemma_pid_reads_back(pid: nat)
    requires
        pid <= 0x7fff_ffff,
    ensures
        pid_text(crate::text::decimal(pid)) == Some(pid as int),
{
    let s = crate::text::decimal(pid);
    crate::text::decimal_reads_back(pid);
    assert(crate::text::is_digit(s[0]));
    assert(crate::text::is_digit(s.last()));
    assert(crate::text::trimmed(s) == s);
}

/// Once a worker's process id is on disk, and as long as the worker lives, a
/// second start finds the vessel running: it spawns nothing and writes
/// nothing. A vessel with a reserved name is never started.
pub proof fn a_second_start_changes_nothing(
    name: Seq<char>,
    spec: SpecView,
    pid: nat,
    restore: Option<Seq<char>>,
    host: HostKind,
)
    requires
        pid <= 0x7fff_ffff,
    ensures
        ({
            let again = start_of(
                name,
                spec,
                runs(Some(crate::text::decimal(pid)), true),
                restore,
                host,
            );
            &&& effects_of(again) == Seq::<StartEffect>::empty()
            &&& match name_problem(name) {
                None => again == StartView::AlreadyRunning,
                Some(p) => again == StartView::Refuse(p),
            }
            &&& crate::vessels::engine_name(name) ==> again == StartView::Refuse(
                VesselErrorView::Engine { name },
            )
        }),
{
    lemma_pid_reads_back(pid);
}

/// The worker to start: its program, arguments and log files.
pub fn worker(exe: &str, spec_json: &str, dir: &str, vz: bool, restore: &Option<String>) -> (d:
    Detached)
    ensures
        d.program@ == exe@,
        vz ==> crate::text::views(d.args@) == seq![
            "vz-worker"@,
            "--spec"@,
            spec_json@,
            "--control"@,
            joined_path(dir@, "vmm.sock"@),
        ] + (match *restore {
            Some(state) => seq!["--restore"@, state@],
            None => Seq::empty(),
        }),
        !vz ==> crate::text::views(d.args@) == seq!["krun-worker"@, "--spec"@, spec_json@],
        vz == d.stdout is Null,
        !vz ==> d.stdout->File_0@ == joined_path(dir@, "console.log"@),
        d.stderr is File,
        d.stderr->File_0@ == joined_path(dir@, "worker.log"@),
{
    if vz {
        let base: Detached = Detached::new(owned(exe)).arg("vz-worker").arg("--spec").arg(
            spec_json,
        ).arg("--control").arg(join(dir, "vmm.sock").as_str()).stderr(
            Stdio::File(join(dir, "worker.log")),
        );
        assert(crate::text::views(base.args@) =~= seq![
            "vz-worker"@,
            "--spec"@,
            spec_json@,
            "--control"@,
            joined_path(dir@, "vmm.sock"@),
        ]);
        match restore {
            Some(state) => {
                let d: Detached = base.arg("--restore").arg(state.as_str());
                assert(crate::text::views(d.args@) =~= crate::text::views(base.args@) + seq![
                    "--restore"@,
                    state@,
                ]);
                d
            },
            None => {
                assert(crate::text::views(base.args@) + Seq::<Seq<char>>::empty()
                    =~= crate::text::views(base.args@));
                base
            },
        }
    } else {
        let d: Detached = Detached::new(owned(exe)).arg("krun-worker").arg("--spec").arg(
            spec_json,
        ).stdout(Stdio::File(join(dir, "console.log"))).stderr(
            Stdio::File(join(dir, "worker.log")),
        );
        assert(crate::text::views(d.args@) =~= seq!["krun-worker"@, "--spec"@, spec_json@]);
        d
    }
}

/// How long to sleep between two looks at a worker.
pub const POLL_MS: u64 = 100;

/// Time for the guest agent to answer.
pub const START_DEADLINE_MS: u64 = 20000;

/// A worker that is not seen alive yet gets this long to appear.
pub const START_GRACE_MS: u64 = 500;

/// Time for a guest to power off.
pub const STOP_DEADLINE_MS: u64 = 10000;

/// What the guest agent says when it answers.
#[derive(Debug)]
pub struct AgentHealth {
    pub kernel: String,
    pub agent_version: String,
}

/// What to do after a look at a starting vessel.
#[derive(Debug)]
pub enum StartStep {
    Up(Started),
    Fail(VesselError),
    /// Sleep for `POLL_MS` and look again.
    Again,
}

/// What a look at a starting vessel comes to.
pub open spec fn looked(
    name: Seq<char>,
    dir: Seq<char>,
    vz: bool,
    resumed: bool,
    health: Option<AgentHealth>,
    alive: bool,
    elapsed_ms: u64,
    step: StartStep,
) -> bool {
    match step {
        StartStep::Up(s) => health is Some && s.resumed == resumed && s.boot_ms == elapsed_ms
            && s.kernel == health->0.kernel && s.agent_version == health->0.agent_version,
        StartStep::Fail(e) => health is None && if !alive && elapsed_ms > START_GRACE_MS {
            e@ == (VesselErrorView::WorkerExited {
                name,
                log: joined_path(dir, if vz { "worker.log"@ } else { "console.log"@ }),
            })
        } else {
            elapsed_ms > START_DEADLINE_MS && e@ == (VesselErrorView::NotHealthy {
                name,
                log: joined_path(dir, "console.log"@),
            })
        },
        StartStep::Again => health is None && (alive || elapsed_ms <= START_GRACE_MS)
            && elapsed_ms <= START_DEADLINE_MS,
    }
}

/// One look at a starting vessel: an answer from the agent ends the wait; a
/// worker that is gone after its grace period, or the deadline, fails it.
pub fn start_wait(
    name: &str,
    dir: &str,
    vz: bool,
    resumed: bool,
    health: Option<AgentHealth>,
    alive: bool,
    elapsed_ms: u64,
) -> (step: StartStep)
    ensures
        looked(name@, dir@, vz, resumed, health, alive, elapsed_ms, step),
{
    match health {
        Some(h) => {
            return StartStep::Up(
                Started {
                    resumed,
                    boot_ms: elapsed_ms,
                    kernel: h.kernel,
                    agent_version: h.agent_version,
                },
            );
        },
        None => {},
    }
    if !alive && elapsed_ms > START_GRACE_MS {
        let log: String = join(dir, if vz { "worker.log" } else { "console.log" });
        return StartStep::Fail(VesselError::WorkerExited { name: owned(name), log });
    }
    if elapsed_ms > START_DEADLINE_MS {
        let log: String = join(dir, "console.log");
        return StartStep::Fail(VesselError::NotHealthy { name: owned(name), log });
    }
    StartStep::Again
}

// Stopping.

#[derive(Debug, Clone, Copy, PartialEq, Eq, Structural)]
pub enum StopOutcome {
    NotRunning,
    Stopped,
    Forced,
}

/// What to do after a look at a stopping vessel.
#[derive(Debug, Clone, Copy, PartialEq, Eq, Structural)]
pub enum StopStep {
    /// It is gone: remove its pid file.
    Gone,
    /// Sleep for `POLL_MS` and look again.
    Again,
    /// Out of time: kill the worker and remove the pid file.
    Kill,
}

/// What a look at a stopping vessel comes to.
pub open spec fn stop_looked(alive: bool, elapsed_ms: u64) -> StopStep {
    if elapsed_ms >= STOP_DEADLINE_MS {
        StopStep::Kill
    } else if alive {
        StopStep::Again
    } else {
        StopStep::Gone
    }
}

/// How a stop ended.
pub open spec fn stop_ended(pid: Option<i32>, last: StopStep) -> StopOutcome {
    if pid is None {
        StopOutcome::NotRunning
    } else if last == StopStep::Kill {
        StopOutcome::Forced
    } else {
        StopOutcome::Stopped
    }
}

/// One look at a vessel that was asked to power off.
pub fn stop_wait(alive: bool, elapsed_ms: u64) -> (step: StopStep)
    ensures
        step == stop_looked(alive, elapsed_ms),
{
    if elapsed_ms >= STOP_DEADLINE_MS {
        StopStep::Kill
    } else if alive {
        StopStep::Again
    } else {
        StopStep::Gone
    }
}

/// How a stop ended, from the last step; a vessel that had no live process was
/// not running.
pub fn stop(pid: Option<i32>, last: StopStep) -> (o: StopOutcome)
    ensures
        o == stop_ended(pid, last),
{
    match pid {
        None => StopOutcome::NotRunning,
        Some(_) => match last {
            StopStep::Kill => StopOutcome::Forced,
            _ => StopOutcome::Stopped,
        },
    }
}

// Removing.

/// What removing a vessel needs: its directory, and whether it must be stopped
/// first.
#[derive(Debug)]
pub struct RmPlan {
    pub dir: String,
    pub stop_first: bool,
}

/// What removing a vessel comes to.
pub open spec fn removal(
    home: Seq<char>,
    name: Seq<char>,
    there: bool,
    running: bool,
    force: bool,
    r: Result<RmPlan, VesselError>,
) -> bool {
    match r {
        Ok(p) => name_problem(name) is None && there && (running ==> force) && p.dir@
            == vessel_dir(home, name) && p.stop_first == running,
        Err(e) => if name_problem(name) is Some {
            name_problem(name) == Some(e@)
        } else if !there {
            e@ == (VesselErrorView::NoVessel { name })
        } else {
            running && !force && e@ == (VesselErrorView::Running { name })
        },
    }
}

/// Remove a vessel with all its disks and snapshots. A running one is refused
/// unless forced, which stops it first.
pub fn rm(home: &str, name: &str, exists: bool, running: bool, force: bool) -> (r: Result<
    RmPlan,
    VesselError,
>)
    ensures
        removal(home@, name@, exists, running, force, r),
{
    let dir: String = match dir_of(home, name) {
        Ok(d) => d,
        Err(e) => {
            return Err(e);
        },
    };
    if !exists {
        return Err(VesselError::NoVessel { name: owned(name) });
    }
    if running && !force {
        return Err(VesselError::Running { name: owned(name) });
    }
    Ok(RmPlan { dir, stop_first: running })
}

// Listing.

#[derive(Debug)]
pub struct VesselSummary {
    pub name: String,
    pub running: bool,
    pub cpus: u32,
    pub mem_mib: u64,
    pub gpu: bool,
    pub backend: String,
}

pub struct SummaryView {
    pub name: Seq<char>,
    pub running: bool,
    pub cpus: u32,
    pub mem_mib: u64,
    pub gpu: bool,
    pub backend: Seq<char>,
}

impl View for VesselSummary {
    type V = SummaryView;

    open spec fn view(&self) -> SummaryView {
        SummaryView {
            name: self.name@,
            running: self.running,
            cpus: self.cpus,
            mem_mib: self.mem_mib,
            gpu: self.gpu,
            backend: self.backend@,
        }
    }
}

/// What was found in a directory below the vessels' root: its description, if
/// it holds one, and whether the vessel runs.
#[derive(Debug)]
pub struct Found {
    pub name: String,
    pub spec: Option<VmSpec>,
    pub running: bool,
}

pub open spec fn summary_of(f: Found) -> SummaryView {
    SummaryView {
        name: f.name@,
        running: f.running,
        cpus: f.spec->0.cpus,
        mem_mib: f.spec->0.mem_mib,
        gpu: f.spec->0.gpu,
        backend: backend_of(f.spec->0@),
    }
}

/// A vessel's place in a list by names.
pub open spec fn among(x: SummaryView, s: Seq<SummaryView>) -> Seq<SummaryView>
    decreases s.len(),
{
    if s.len() == 0 {
        seq![x]
    } else if lex_le(x.name, s[0].name) {
        seq![x] + s
    } else {
        seq![s[0]] + among(x, s.skip(1))
    }
}

/// The vessels among the directories, by their names.
pub open spec fn summaries_of(found: Seq<Found>) -> Seq<SummaryView>
    decreases found.len(),
{
    if found.len() == 0 {
        Seq::empty()
    } else if found.last().spec is None {
        summaries_of(found.drop_last())
    } else {
        among(summary_of(found.last()), summaries_of(found.drop_last()))
    }
}

pub open spec fn summary_views(v: Seq<VesselSummary>) -> Seq<SummaryView> {
    v.map_values(|s: VesselSummary| s@)
}

fn insert_summary(list: &mut Vec<VesselSummary>, s: VesselSummary)
    ensures
        summary_views(final(list)@) == among(s@, summary_views(old(list)@)),
{
    let ghost lv = summary_views(list@);
    let ghost x = s@;
    let nv: Vec<char> = to_chars(s.name.as_str());
    let mut i: usize = 0;
    assert(lv.skip(0) =~= lv);
    assert(lv.take(0) + among(x, lv.skip(0)) =~= among(x, lv));
    while i < list.len() && !text_le(&nv, &to_chars(list[i].name.as_str()))
        invariant
            i <= list@.len(),
            list@ == old(list)@,
            lv == summary_views(list@),
            nv@ == x.name,
            lv.take(i as int) + among(x, lv.skip(i as int)) == among(x, lv),
        decreases list@.len() - i,
    {
        let ghost rest = lv.skip(i as int);
        assert(rest[0] == list@[i as int]@);
        assert(rest.skip(1) =~= lv.skip(i as int + 1));
        assert(lv.take(i as int) + (seq![rest[0]] + among(x, rest.skip(1))) =~= lv.take(
            i as int + 1,
        ) + among(x, rest.skip(1)));
        i = i + 1;
    }
    proof {
        let rest = lv.skip(i as int);
        if i < list@.len() {
            assert(rest[0] == list@[i as int]@);
            assert(among(x, rest) == seq![x] + rest);
        } else {
            assert(rest =~= Seq::empty());
            assert(among(x, rest) =~= seq![x] + rest);
        }
    }
    list.insert(i, s);
    assert(summary_views(list@) =~= lv.take(i as int) + (seq![x] + lv.skip(i as int)));
}

/// All named vessels, by their names, from the directories below their root.
/// A directory without a readable description is none.
pub fn list(found: &Vec<Found>) -> (out: Vec<VesselSummary>)
    ensures
        summary_views(out@) == summaries_of(found@),
{
    let mut out: Vec<VesselSummary> = Vec::new();
    let mut i: usize = 0;
    assert(found@.take(0) =~= Seq::empty());
    assert(summary_views(out@) =~= Seq::empty());
    while i < found.len()
        invariant
            i <= found@.len(),
            summary_views(out@) == summaries_of(found@.take(i as int)),
        decreases found@.len() - i,
    {
        let ghost longer = found@.take(i as int + 1);
        proof {
            assert(longer.drop_last() =~= found@.take(i as int));
            assert(longer.last() == found@[i as int]);
        }
        match &found[i].spec {
            None => {},
            Some(spec) => {
                let backend: String = match &spec.backend {
                    Some(b) => owned(b.as_str()),
                    None => owned("krun"),
                };
                let s = VesselSummary {
                    name: owned(found[i].name.as_str()),
                    running: found[i].running,
                    cpus: spec.cpus,
                    mem_mib: spec.mem_mib,
                    gpu: spec.gpu,
                    backend,
                };
                assert(s@ == summary_of(found@[i as int]));
                insert_summary(&mut out, s);
            },
        }
        i = i + 1;
    }
    assert(found@.take(found@.len() as int) =~= found@);
    out
}

/// The names of vessels.
pub open spec fn names_of(s: Seq<SummaryView>) -> Seq<Seq<char>> {
    s.map_values(|v: SummaryView| v.name)
}

/// The names of the directories that hold a description.
pub open spec fn described(found: Seq<Found>) -> Seq<Seq<char>>
    decreases found.len(),
{
    if found.len() == 0 {
        Seq::empty()
    } else if found.last().spec is None {
        described(found.drop_last())
    } else {
        described(found.drop_last()).push(found.last().name@)
    }
}

proof fn lemma_among(x: SummaryView, s: Seq<SummaryView>)
    ensures
        names_of(among(x, s)) == inserted(x.name, names_of(s)),
    decreases s.len(),
{
    if s.len() == 0 {
        assert(names_of(among(x, s)) =~= seq![x.name]);
    } else if lex_le(x.name, s[0].name) {
        assert(names_of(among(x, s)) =~= seq![x.name] + names_of(s));
    } else {
        lemma_among(x, s.skip(1));
        assert(names_of(s.skip(1)) =~= names_of(s).skip(1));
        assert(names_of(among(x, s)) =~= seq![s[0].name] + names_of(among(x, s.skip(1))));
    }
}

/// The list holds every vessel that has a description, sorted by name,
/// whatever order the directories come in.
pub proof fn vessels_are_listed_by_name(found: Seq<Found>)
    ensures
        names_of(summaries_of(found)) == in_order(described(found)),
    decreases found.len(),
{
    if found.len() == 0 {
        assert(names_of(summaries_of(found)) =~= in_order(described(found)));
    } else {
        vessels_are_listed_by_name(found.drop_last());
        if found.last().spec is Some {
            let d = described(found.drop_last());
            let name = found.last().name@;
            lemma_among(summary_of(found.last()), summaries_of(found.drop_last()));
            assert(d.push(name).drop_last() =~= d);
            assert(d.push(name).last() == name);
        }
    }
}

/// A vessel is launched just where its name is one, it does not run, and, where
/// there is state to resume from, the backend can resume it here. What is
/// launched is the description as it stands, but that krun is told the state.
pub proof fn what_a_start_launches(
    name: Seq<char>,
    spec: SpecView,
    running: bool,
    restore: Option<Seq<char>>,
    host: HostKind,
)
    ensures
        ({
            let d = start_of(name, spec, running, restore, host);
            let vz = spec.backend == Some("vz"@);
            &&& d is Launch <==> (name_problem(name) is None && !running && (restore is None || vz
                || host.krun_state))
            &&& d is AlreadyRunning <==> (name_problem(name) is None && running)
            &&& d is Launch ==> d->vz == vz && d->spec == (SpecView {
                restore_path: if vz {
                    spec.restore_path
                } else {
                    restore
                },
                ..spec
            })
        }),
{
    reveal_strlit("krun");
    reveal_strlit("vz");
    assert("krun"@.len() == 4 && "vz"@.len() == 2);
}

/// A launch spawns one worker and then records it; its log, and the console's
/// where the worker writes that, are fresh by then. Nothing else changes
/// anything.
pub proof fn a_launch_spawns_one_worker(d: StartView, e: StartEffect)
    ensures
        d is Launch <==> effects_of(d).contains(StartEffect::SpawnWorker),
        d is Launch ==> effects_of(d).contains(StartEffect::FreshWorkerLog) && (effects_of(
            d,
        ).contains(StartEffect::FreshConsoleLog) <==> !d->vz) && effects_of(d).last()
            == StartEffect::WritePid && effects_of(d)[effects_of(d).len() - 2]
            == StartEffect::SpawnWorker,
        effects_of(d).no_duplicates(),
        !(d is Launch) ==> effects_of(d).len() == 0,
{
    let s = effects_of(d);
    if let StartView::Launch { vz, .. } = d {
        if vz {
            assert(s[0] == StartEffect::FreshWorkerLog && s[1] == StartEffect::SpawnWorker);
        } else {
            assert(s[0] == StartEffect::FreshConsoleLog && s[1] == StartEffect::FreshWorkerLog
                && s[2] == StartEffect::SpawnWorker);
        }
    }
}

/// Every vessel that has a description is in the list as it is: its name,
/// whether it runs, its size, and its backend, which is krun where none is
/// named.
pub proof fn a_vessel_is_listed_as_it_is(found: Seq<Found>, k: int)
    requires
        0 <= k < found.len(),
        found[k].spec is Some,
    ensures
        summaries_of(found).contains(
            (SummaryView {
                name: found[k].name@,
                running: found[k].running,
                cpus: found[k].spec->0.cpus,
                mem_mib: found[k].spec->0.mem_mib,
                gpu: found[k].spec->0.gpu,
                backend: match found[k].spec->0@.backend {
                    Some(b) => b,
                    None => "krun"@,
                },
            }),
        ),
        summaries_of(found).len() == described(found).len(),
    decreases found.len(),
{
    let short = found.drop_last();
    let n = found.len() - 1;
    let x = summary_of(found[k]);
    lemma_listed_len(found);
    if k < n {
        assert(short[k] == found[k]);
        a_vessel_is_listed_as_it_is(short, k);
        if found.last().spec is Some {
            lemma_among_holds(summary_of(found.last()), summaries_of(short), x);
        }
    } else {
        lemma_among_holds(x, summaries_of(short), x);
    }
}

proof fn lemma_listed_len(found: Seq<Found>)
    ensures
        summaries_of(found).len() == described(found).len(),
    decreases found.len(),
{
    if found.len() > 0 {
        lemma_listed_len(found.drop_last());
        if found.last().spec is Some {
            let x = summary_of(found.last());
            lemma_among_holds(x, summaries_of(found.drop_last()), x);
        }
    }
}

proof fn lemma_among_holds(x: SummaryView, s: Seq<SummaryView>, y: SummaryView)
    ensures
        among(x, s).contains(x),
        among(x, s).len() == s.len() + 1,
        s.contains(y) ==> among(x, s).contains(y),
    decreases s.len(),
{
    let r = among(x, s);
    if s.len() == 0 || lex_le(x.name, s[0].name) {
        assert(r[0] == x);
        if s.contains(y) {
            let i = choose|i: int| 0 <= i < s.len() && s[i] == y;
            assert(r[i + 1] == y);
        }
    } else {
        let t = s.skip(1);
        lemma_among_holds(x, t, y);
        let i = choose|i: int| 0 <= i < among(x, t).len() && among(x, t)[i] == x;
        assert(r[i + 1] == x);
        if s.contains(y) {
            let j = choose|j: int| 0 <= j < s.len() && s[j] == y;
            if j == 0 {
                assert(r[0] == y);
            } else {
                assert(t[j - 1] == y);
                let i = choose|i: int| 0 <= i < among(x, t).len() && among(x, t)[i] == y;
                assert(r[i + 1] == y);
            }
        }
    }
}

/// A vessel runs just where its pid file names a process that lives.
pub proof fn a_vessel_runs_by_its_pid(pid: nat, alive: bool)
    requires
        pid <= 0x7fff_ffff,
    ensures
        runs(Some(crate::text::decimal(pid)), alive) <==> alive,
        !runs(None, alive),
        !runs(Some(Seq::empty()), alive),
{
    lemma_pid_reads_back(pid);
    assert(crate::text::trimmed(Seq::empty()) =~= Seq::empty());
}

/// A MAC address is six pairs of digits with colons between; the first pair
/// marks it as local and of one station, the others are the bytes.
pub proof fn a_mac_is_local(b: Seq<u8>)
    requires
        b.len() == 5,
    ensures
        mac_text(b).len() == 17,
        mac_text(b)[0] == '0' && mac_text(b)[1] == '2',
        forall|k: int|
            0 <= k < 5 ==> #[trigger] mac_text(b).subrange(3 * k + 3, 3 * k + 5)
                == crate::text::hex_of(seq![b[k]]),
        forall|k: int| 0 <= k < 5 ==> #[trigger] mac_text(b)[3 * k + 2] == ':',
{
    reveal_strlit("02:");
    reveal_strlit(":");
    let m = mac_text(b);
    assert forall|k: int| 0 <= k < 5 implies #[trigger] b.subrange(k, k + 1) =~= seq![b[k]] by {}
    assert forall|k: int| 0 <= k < 5 implies (#[trigger] crate::text::hex_of(
        b.subrange(k, k + 1),
    )).len() == 2 by {
        lemma_hex_one(b[k]);
        assert(b.subrange(k, k + 1) =~= seq![b[k]]);
    }
    assert(b.subrange(0, 1) =~= seq![b[0]]);
    assert(b.subrange(1, 2) =~= seq![b[1]]);
    assert(b.subrange(2, 3) =~= seq![b[2]]);
    assert(b.subrange(3, 4) =~= seq![b[3]]);
    assert(b.subrange(4, 5) =~= seq![b[4]]);
    lemma_hex_one(b[0]);
    lemma_hex_one(b[1]);
    lemma_hex_one(b[2]);
    lemma_hex_one(b[3]);
    lemma_hex_one(b[4]);
    assert(m.subrange(3, 5) =~= crate::text::hex_of(seq![b[0]]));
    assert(m.subrange(6, 8) =~= crate::text::hex_of(seq![b[1]]));
    assert(m.subrange(9, 11) =~= crate::text::hex_of(seq![b[2]]));
    assert(m.subrange(12, 14) =~= crate::text::hex_of(seq![b[3]]));
    assert(m.subrange(15, 17) =~= crate::text::hex_of(seq![b[4]]));
    assert forall|k: int| 0 <= k < 5 implies #[trigger] m.subrange(3 * k + 3, 3 * k + 5)
        == crate::text::hex_of(seq![b[k]]) by {
        if k == 0 {
        } else if k == 1 {
        } else if k == 2 {
        } else if k == 3 {
        } else {
        }
    }
}

proof fn lemma_hex_one(x: u8)
    ensures
        crate::text::hex_of(seq![x]).len() == 2,
{
    reveal_with_fuel(crate::text::hex_of, 3);
    assert(seq![x].drop_last() =~= Seq::empty());
}

/// A start waits as long as there is hope, and no longer: an agent that answers
/// ends it at once, a worker that is gone fails it after half a second, and
/// twenty seconds fail it in any case.
pub proof fn how_long_a_start_waits(
    name: Seq<char>,
    dir: Seq<char>,
    vz: bool,
    resumed: bool,
    health: Option<AgentHealth>,
    alive: bool,
    elapsed_ms: u64,
    step: StartStep,
)
    requires
        looked(name, dir, vz, resumed, health, alive, elapsed_ms, step),
    ensures
        health is Some <==> step is Up,
        step matches StartStep::Up(s) ==> s.resumed == resumed && s.boot_ms == elapsed_ms && s.kernel
            == health->0.kernel,
        step is Again <==> health is None && elapsed_ms <= 20000 && (alive || elapsed_ms <= 500),
        step matches StartStep::Fail(e) ==> (e@ is WorkerExited <==> !alive) && (e@ is NotHealthy
            <==> alive),
{
}

/// A running vessel is removed only where that is forced, and then it is
/// stopped first; what is removed is the vessel's own directory.
pub proof fn when_a_vessel_is_removed(
    home: Seq<char>,
    name: Seq<char>,
    there: bool,
    running: bool,
    force: bool,
    r: Result<RmPlan, VesselError>,
)
    requires
        removal(home, name, there, running, force, r),
    ensures
        r is Ok <==> name_problem(name) is None && there && (!running || force),
        r matches Ok(p) ==> p.dir@ == vessel_dir(home, name) && (p.stop_first <==> running),
        running && !force ==> r is Err,
        crate::vessels::engine_name(name) ==> r is Err,
{
}

/// A vessel has ten seconds to stop, and is killed then; what is told is what
/// was done.
pub proof fn how_a_vessel_is_stopped(pid: i32, alive: bool, elapsed_ms: u64)
    ensures
        stop_looked(alive, elapsed_ms) == StopStep::Kill <==> elapsed_ms >= 10000,
        elapsed_ms < 10000 ==> (stop_looked(alive, elapsed_ms) == StopStep::Gone <==> !alive),
        stop_ended(None, stop_looked(alive, elapsed_ms)) == StopOutcome::NotRunning,
        stop_ended(Some(pid), stop_looked(alive, elapsed_ms)) == StopOutcome::Forced
            <==> elapsed_ms >= 10000,
        stop_ended(Some(pid), StopStep::Gone) == StopOutcome::Stopped,
{
}

} // verus!

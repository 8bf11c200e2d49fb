//! Snapshots of vessels: taking them, rolling back to them, branching from
//! them.
//!
//! What an operation does on the host goes step by step: the machine says what
//! to do next, the caller does it and reports how it went.

use crate::lifecycle::HostKind;
use crate::paths::{file_name, join, joined_path};
use crate::spec::{
    disk_views, port_views, ConsoleSpec, DiskSpec, DiskView, PortView, SpecView, VmSpec,
    VsockPortMap,
};
use crate::text::{cat2, cat3, decimal_str, list_has, opt_owned, owned, same, to_chars};
use crate::vessels::{
    dir_of, disk_images, images_of, in_order, inserted, label_ok, lex_le, name_problem, snap_dir,
    snapshot_dir, text_le, validate_label, validate_name, vessel_dir, VesselError, VesselErrorView,
};
use vstd::prelude::*;

verus! {

/// How a step went.
#[derive(Debug)]
pub enum Event {
    /// It succeeded. Also what gets a machine going.
    Done,
    /// It failed, in these words.
    Failed(String),
}

/// How much of a vessel a snapshot captures.
#[derive(Debug, Clone, Copy, PartialEq, Eq, Structural)]
pub enum SnapMode {
    /// Memory and disks when possible, else disks only.
    Auto,
    /// Memory and disks, or fail.
    Memory,
    /// Disks only.
    DiskOnly,
}

/// Why a snapshot holds disks only.
#[derive(Debug, Clone, Copy, PartialEq, Eq, Structural)]
pub enum DiskOnlyReason {
    Requested,
    BackendUnsupported,
    NotRunning,
}

/// What a snapshot turned out to be.
#[derive(Debug, Clone, Copy, PartialEq, Eq, Structural)]
pub enum SnapshotOutcome {
    /// Live capture: the guest never stopped.
    Memory { ms: u64, state_mb: u64 },
    /// Crash-consistent disk clone, the vessel stopped and restarted around it
    /// when it was running.
    DiskOnly { ms: u64, reason: DiskOnlyReason },
}

#[derive(Debug)]
pub struct SnapshotInfo {
    pub label: String,
    /// Carries machine state, not just disks.
    pub memory: bool,
}

/// Whether this host can save the machine state of a vessel: vz on macOS, krun
/// on x86_64 Linux and Windows.
pub open spec fn memory_capable(vz: bool, host: HostKind) -> bool {
    if vz {
        host.macos
    } else {
        host.krun_state
    }
}

/// What is decided of a snapshot: memory, or disks only and why, or that memory
/// cannot be had.
pub open spec fn mode_decided(
    name: Seq<char>,
    backend: Option<Seq<char>>,
    mode: SnapMode,
    running: bool,
    host: HostKind,
    r: Result<(bool, DiskOnlyReason), VesselError>,
) -> bool {
    let vz = backend == Some("vz"@);
    let can = memory_capable(vz, host);
    match r {
        Ok((memory, reason)) => match mode {
            SnapMode::DiskOnly => !memory && reason == DiskOnlyReason::Requested,
            SnapMode::Memory => can && running && memory,
            SnapMode::Auto => memory == (can && running) && (!memory ==> reason == (
            if !can {
                DiskOnlyReason::BackendUnsupported
            } else {
                DiskOnlyReason::NotRunning
            })),
        },
        Err(e) => mode == SnapMode::Memory && if !can {
            e@ == (VesselErrorView::NoMemoryHere {
                backend: match backend {
                    Some(b) => b,
                    None => "krun"@,
                },
            })
        } else {
            !running && e@ == (VesselErrorView::NotLive { name })
        },
    }
}

/// Decide what a snapshot captures: memory, or disks only and why.
pub fn snapshot_mode(
    name: &str,
    backend: &Option<String>,
    mode: SnapMode,
    running: bool,
    host: HostKind,
) -> (r: Result<(bool, DiskOnlyReason), VesselError>)
    ensures
        mode_decided(name@, crate::text::opt_view(*backend), mode, running, host, r),
{
    let vz: bool = match backend {
        Some(b) => same(b.as_str(), "vz"),
        None => false,
    };
    let can: bool = if vz { host.macos } else { host.krun_state };
    match mode {
        SnapMode::DiskOnly => Ok((false, DiskOnlyReason::Requested)),
        SnapMode::Memory => {
            if !can {
                let b: String = match backend {
                    Some(b) => owned(b.as_str()),
                    None => owned("krun"),
                };
                return Err(VesselError::NoMemoryHere { backend: b });
            }
            if !running {
                return Err(VesselError::NotLive { name: owned(name) });
            }
            Ok((true, DiskOnlyReason::Requested))
        },
        SnapMode::Auto => {
            if !can {
                Ok((false, DiskOnlyReason::BackendUnsupported))
            } else if !running {
                Ok((false, DiskOnlyReason::NotRunning))
            } else {
                Ok((true, DiskOnlyReason::Requested))
            }
        },
    }
}

/// Where a snapshot keeps the machine state.
pub open spec fn state_at(sdir: Seq<char>, vz: bool) -> Seq<char> {
    joined_path(
        sdir,
        if vz {
            "memory.vzstate"@
        } else {
            "memory.krun"@
        },
    )
}

/// The machine state that a snapshot carries.
pub open spec fn state_found(sdir: Seq<char>, vz_file: bool, krun_dir: bool) -> Option<Seq<char>> {
    if vz_file {
        Some(joined_path(sdir, "memory.vzstate"@))
    } else if krun_dir {
        Some(joined_path(sdir, "memory.krun"@))
    } else {
        None
    }
}

/// Where a memory snapshot keeps the machine state: vz a file, krun a
/// directory.
pub fn state_path(sdir: &str, vz: bool) -> (p: String)
    ensures
        p@ == state_at(sdir@, vz),
{
    join(sdir, if vz { "memory.vzstate" } else { "memory.krun" })
}

/// The machine state inside a snapshot, if it carries any: a vz state file, or
/// else a krun directory.
pub fn snapshot_memory_state(sdir: &str, vz_file: bool, krun_dir: bool) -> (r: Option<String>)
    ensures
        crate::text::opt_view(r) == state_found(sdir@, vz_file, krun_dir),
{
    if vz_file {
        Some(join(sdir, "memory.vzstate"))
    } else if krun_dir {
        Some(join(sdir, "memory.krun"))
    } else {
        None
    }
}

/// The disks of a directory that holds the files `entries`, each with where
/// its clone goes.
pub open spec fn clones_of(entries: Seq<Seq<char>>, images: Seq<Seq<char>>, from: Seq<char>, to: Seq<
    char,
>) -> Seq<(Seq<char>, Seq<char>)>
    decreases images.len(),
{
    if images.len() == 0 {
        Seq::empty()
    } else {
        let before = clones_of(entries, images.drop_last(), from, to);
        if entries.contains(images.last()) {
            before.push((joined_path(from, images.last()), joined_path(to, images.last())))
        } else {
            before
        }
    }
}

pub open spec fn pair_views(v: Seq<(String, String)>) -> Seq<(Seq<char>, Seq<char>)> {
    v.map_values(|p: (String, String)| (p.0@, p.1@))
}

/// What to clone from `from`, which holds the files `entries`, to `to`.
pub fn disk_clones(entries: &Vec<String>, from: &str, to: &str) -> (r: Vec<(String, String)>)
    ensures
        pair_views(r@) == clones_of(
            crate::text::views(entries@),
            images_of(crate::text::views(entries@)),
            from@,
            to@,
        ),
{
    let images: Vec<String> = disk_images(entries);
    let ghost ev = crate::text::views(entries@);
    let ghost iv = crate::text::views(images@);
    let mut r: Vec<(String, String)> = Vec::new();
    let mut i: usize = 0;
    assert(iv.take(0) =~= Seq::empty());
    assert(pair_views(r@) =~= Seq::empty());
    while i < images.len()
        invariant
            i <= images@.len(),
            ev == crate::text::views(entries@),
            iv == crate::text::views(images@),
            pair_views(r@) == clones_of(ev, iv.take(i as int), from@, to@),
        decreases images@.len() - i,
    {
        let ghost longer = iv.take(i as int + 1);
        let ghost before = pair_views(r@);
        proof {
            assert(longer.drop_last() =~= iv.take(i as int));
            assert(longer.last() == images@[i as int]@);
        }
        if list_has(entries, images[i].as_str()) {
            let a: String = join(from, images[i].as_str());
            let b: String = join(to, images[i].as_str());
            let ghost p = (a@, b@);
            r.push((a, b));
            assert(pair_views(r@) =~= before.push(p));
        }
        i = i + 1;
    }
    assert(iv.take(images@.len() as int) =~= iv);
    r
}

// Taking a snapshot.

/// What to do next for a snapshot.
#[derive(Debug)]
pub enum SnapAction {
    /// Create the snapshot's directory.
    MakeDir,
    /// Connect to the worker's control socket.
    Connect,
    /// Have the worker pause the guest.
    Pause,
    /// Have the worker save the machine state.
    Save,
    /// Clone the disks into the snapshot's directory.
    CloneDisks,
    /// Have the worker resume the guest.
    Resume,
    /// Remove the snapshot's directory; what comes of that is of no account.
    RemoveDir,
    /// Stop the vessel.
    Stop,
    /// Start the vessel.
    Start,
    /// The snapshot is taken.
    Finish,
    /// It failed.
    Fail(VesselError),
}

#[derive(Debug, Clone, Copy, PartialEq, Eq, Structural)]
pub enum SnapAt {
    Begin,
    MakingDir,
    Connecting,
    Pausing,
    Saving,
    Cloning,
    Resuming,
    CleaningUp,
    Stopping,
    Restarting,
    End,
}

/// A snapshot being taken.
#[derive(Debug)]
pub struct SnapMachine {
    memory: bool,
    running: bool,
    at: SnapAt,
    error: Option<String>,
}

/// The machine as its mathematical content. `error` is what went wrong with
/// the capture.
pub struct SnapState {
    pub memory: bool,
    pub running: bool,
    pub at: SnapAt,
    pub error: Option<Seq<char>>,
}

pub enum SnapDo {
    MakeDir,
    Connect,
    Pause,
    Save,
    CloneDisks,
    Resume,
    RemoveDir,
    Stop,
    Start,
    Finish,
    Fail(Seq<char>),
}

impl View for SnapMachine {
    type V = SnapState;

    closed spec fn view(&self) -> SnapState {
        SnapState {
            memory: self.memory,
            running: self.running,
            at: self.at,
            error: crate::text::opt_view(self.error),
        }
    }
}

impl View for SnapAction {
    type V = SnapDo;

    open spec fn view(&self) -> SnapDo {
        match self {
            SnapAction::MakeDir => SnapDo::MakeDir,
            SnapAction::Connect => SnapDo::Connect,
            SnapAction::Pause => SnapDo::Pause,
            SnapAction::Save => SnapDo::Save,
            SnapAction::CloneDisks => SnapDo::CloneDisks,
            SnapAction::Resume => SnapDo::Resume,
            SnapAction::RemoveDir => SnapDo::RemoveDir,
            SnapAction::Stop => SnapDo::Stop,
            SnapAction::Start => SnapDo::Start,
            SnapAction::Finish => SnapDo::Finish,
            SnapAction::Fail(e) => SnapDo::Fail(e@.text()),
        }
    }
}

/// An event as its content: what went wrong, or nothing.
pub open spec fn event_error(e: Event) -> Option<Seq<char>> {
    match e {
        Event::Done => None,
        Event::Failed(s) => Some(s@),
    }
}

/// The words for a memory snapshot that failed while the guest was paused.
pub open spec fn capture_failed(e: Seq<char>) -> Seq<char> {
    "memory snapshot failed (vessel resumed unharmed): "@ + e
}

impl SnapState {
    pub open spec fn to(self, at: SnapAt) -> SnapState {
        SnapState { at, ..self }
    }

    pub open spec fn ended(self) -> SnapState {
        self.to(SnapAt::End)
    }

    /// The next step, given how the last one went. A capture is pause, save,
    /// clone, resume; the guest is resumed whatever came of saving and cloning,
    /// and only then is a failed capture removed and reported. Without memory
    /// the vessel is stopped, cloned and started again if it was running.
    pub open spec fn next(self, failed: Option<Seq<char>>) -> (SnapState, SnapDo) {
        match self.at {
            SnapAt::Begin => if self.memory || !self.running {
                (self.to(SnapAt::MakingDir), SnapDo::MakeDir)
            } else {
                (self.to(SnapAt::Stopping), SnapDo::Stop)
            },
            SnapAt::Stopping => match failed {
                Some(e) => (self.ended(), SnapDo::Fail(e)),
                None => (self.to(SnapAt::MakingDir), SnapDo::MakeDir),
            },
            SnapAt::MakingDir => match failed {
                Some(e) => (self.ended(), SnapDo::Fail(e)),
                None => if self.memory {
                    (self.to(SnapAt::Connecting), SnapDo::Connect)
                } else {
                    (self.to(SnapAt::Cloning), SnapDo::CloneDisks)
                },
            },
            SnapAt::Connecting => match failed {
                Some(e) => (self.ended(), SnapDo::Fail(e)),
                None => (self.to(SnapAt::Pausing), SnapDo::Pause),
            },
            SnapAt::Pausing => match failed {
                Some(e) => (self.ended(), SnapDo::Fail(e)),
                None => (self.to(SnapAt::Saving), SnapDo::Save),
            },
            SnapAt::Saving => match failed {
                Some(e) => (
                    SnapState { at: SnapAt::Resuming, error: Some(e), ..self },
                    SnapDo::Resume,
                ),
                None => (self.to(SnapAt::Cloning), SnapDo::CloneDisks),
            },
            SnapAt::Cloning => if self.memory {
                (
                    SnapState {
                        at: SnapAt::Resuming,
                        error: match failed {
                            Some(e) => Some(e),
                            None => self.error,
                        },
                        ..self
                    },
                    SnapDo::Resume,
                )
            } else {
                match failed {
                    Some(e) => (self.ended(), SnapDo::Fail(e)),
                    None => if self.running {
                        (self.to(SnapAt::Restarting), SnapDo::Start)
                    } else {
                        (self.ended(), SnapDo::Finish)
                    },
                }
            },
            SnapAt::Resuming => if self.error is Some {
                (self.to(SnapAt::CleaningUp), SnapDo::RemoveDir)
            } else {
                match failed {
                    Some(e) => (self.ended(), SnapDo::Fail(e)),
                    None => (self.ended(), SnapDo::Finish),
                }
            },
            SnapAt::CleaningUp => (
                self.ended(),
                SnapDo::Fail(
                    capture_failed(
                        match self.error {
                            Some(e) => e,
                            None => Seq::empty(),
                        },
                    ),
                ),
            ),
            SnapAt::Restarting => match failed {
                Some(e) => (self.ended(), SnapDo::Fail(e)),
                None => (self.ended(), SnapDo::Finish),
            },
            SnapAt::End => (self, SnapDo::Finish),
        }
    }

    /// Whether the guest is paused: from the pause that succeeded to the
    /// resume.
    pub open spec fn paused(self) -> bool {
        self.memory && (self.at == SnapAt::Saving || self.at == SnapAt::Cloning)
    }
}

fn fail(what: String) -> (a: SnapAction)
    ensures
        a@ == SnapDo::Fail(what@),
{
    SnapAction::Fail(VesselError::Failed { what })
}

impl SnapMachine {
    /// A snapshot of a vessel that runs or not, with its memory or without.
    pub fn new(memory: bool, running: bool) -> (m: SnapMachine)
        ensures
            m@ == (SnapState { memory, running, at: SnapAt::Begin, error: None }),
    {
        SnapMachine { memory, running, at: SnapAt::Begin, error: None }
    }

    /// What to do next, given how the last step went.
    pub fn next(&mut self, event: Event) -> (action: SnapAction)
        ensures
            (final(self)@, action@) == old(self)@.next(event_error(event)),
    {
        match self.at {
            SnapAt::Begin => {
                if self.memory || !self.running {
                    self.at = SnapAt::MakingDir;
                    SnapAction::MakeDir
                } else {
                    self.at = SnapAt::Stopping;
                    SnapAction::Stop
                }
            },
            SnapAt::Stopping => match event {
                Event::Failed(e) => {
                    self.at = SnapAt::End;
                    fail(e)
                },
                Event::Done => {
                    self.at = SnapAt::MakingDir;
                    SnapAction::MakeDir
                },
            },
            SnapAt::MakingDir => match event {
                Event::Failed(e) => {
                    self.at = SnapAt::End;
                    fail(e)
                },
                Event::Done => {
                    if self.memory {
                        self.at = SnapAt::Connecting;
                        SnapAction::Connect
                    } else {
                        self.at = SnapAt::Cloning;
                        SnapAction::CloneDisks
                    }
                },
            },
            SnapAt::Connecting => match event {
                Event::Failed(e) => {
                    self.at = SnapAt::End;
                    fail(e)
                },
                Event::Done => {
                    self.at = SnapAt::Pausing;
                    SnapAction::Pause
                },
            },
            SnapAt::Pausing => match event {
                Event::Failed(e) => {
                    self.at = SnapAt::End;
                    fail(e)
                },
                Event::Done => {
                    self.at = SnapAt::Saving;
                    SnapAction::Save
                },
            },
            SnapAt::Saving => match event {
                Event::Failed(e) => {
                    self.at = SnapAt::Resuming;
                    self.error = Some(e);
                    SnapAction::Resume
                },
                Event::Done => {
                    self.at = SnapAt::Cloning;
                    SnapAction::CloneDisks
                },
            },
            SnapAt::Cloning => {
                if self.memory {
                    self.at = SnapAt::Resuming;
                    match event {
                        Event::Failed(e) => {
                            self.error = Some(e);
                        },
                        Event::Done => {},
                    }
                    SnapAction::Resume
                } else {
                    match event {
                        Event::Failed(e) => {
                            self.at = SnapAt::End;
                            fail(e)
                        },
                        Event::Done => {
                            if self.running {
                                self.at = SnapAt::Restarting;
                                SnapAction::Start
                            } else {
                                self.at = SnapAt::End;
                                SnapAction::Finish
                            }
                        },
                    }
                }
            },
            SnapAt::Resuming => {
                if self.error.is_some() {
                    self.at = SnapAt::CleaningUp;
                    SnapAction::RemoveDir
                } else {
                    self.at = SnapAt::End;
                    match event {
                        Event::Failed(e) => fail(e),
                        Event::Done => SnapAction::Finish,
                    }
                }
            },
            SnapAt::CleaningUp => {
                self.at = SnapAt::End;
                let cause: String = match &self.error {
                    Some(e) => owned(e.as_str()),
                    None => String::new(),
                };
                fail(cat2("memory snapshot failed (vessel resumed unharmed): ", cause.as_str()))
            },
            SnapAt::Restarting => {
                self.at = SnapAt::End;
                match event {
                    Event::Failed(e) => fail(e),
                    Event::Done => SnapAction::Finish,
                }
            },
            SnapAt::End => SnapAction::Finish,
        }
    }
}

/// A paused guest is always resumed: while it is paused the machine neither
/// ends nor cleans up, whatever happens, and within two steps it resumes the
/// guest.
pub proof fn paused_guest_is_resumed(s: SnapState, first: Option<Seq<char>>, second: Option<Seq<char>>)
    requires
        s.paused(),
    ensures
        ({
            let (t, a) = s.next(first);
            let (u, b) = t.next(second);
            &&& !(a is Finish) && !(a is Fail) && !(a is RemoveDir)
            &&& a is Resume || (t.paused() && b is Resume)
            &&& t.paused() || a is Resume
        }),
{
}

/// A failed capture leaves no snapshot behind: it ends in a failure, and only
/// after the snapshot's directory was removed.
pub proof fn failed_capture_is_removed(s: SnapState, e: Seq<char>, r: Option<Seq<char>>, c: Option<
    Seq<char>,
>)
    requires
        s.paused(),
        s.error is None,
    ensures
        ({
            let (t, a) = s.next(Some(e));
            let (u, b) = t.next(r);
            let (v, d) = u.next(c);
            &&& a is Resume
            &&& b is RemoveDir
            &&& d == SnapDo::Fail(capture_failed(e))
            &&& v.at == SnapAt::End
        }),
{
}

/// A vessel that runs is stopped for a disk snapshot and, if all goes well,
/// started again before the snapshot counts as taken; one that does not run is
/// neither stopped nor started.
pub proof fn disk_snapshot_restarts_what_ran(running: bool)
    ensures
        ({
            let s = SnapState { memory: false, running, at: SnapAt::Begin, error: None };
            let (s1, a1) = s.next(None);
            let (s2, a2) = s1.next(None);
            let (s3, a3) = s2.next(None);
            let (s4, a4) = s3.next(None);
            let (s5, a5) = s4.next(None);
            if running {
                seq![a1, a2, a3, a4, a5] == seq![
                    SnapDo::Stop,
                    SnapDo::MakeDir,
                    SnapDo::CloneDisks,
                    SnapDo::Start,
                    SnapDo::Finish,
                ]
            } else {
                seq![a1, a2, a3] == seq![SnapDo::MakeDir, SnapDo::CloneDisks, SnapDo::Finish]
            }
        }),
{
    let s = SnapState { memory: false, running, at: SnapAt::Begin, error: None };
    let (s1, a1) = s.next(None);
    let (s2, a2) = s1.next(None);
    let (s3, a3) = s2.next(None);
    let (s4, a4) = s3.next(None);
    let (s5, a5) = s4.next(None);
    if running {
        assert(seq![a1, a2, a3, a4, a5] =~= seq![
            SnapDo::Stop,
            SnapDo::MakeDir,
            SnapDo::CloneDisks,
            SnapDo::Start,
            SnapDo::Finish,
        ]);
    } else {
        assert(seq![a1, a2, a3] =~= seq![SnapDo::MakeDir, SnapDo::CloneDisks, SnapDo::Finish]);
    }
}

/// What is told of a snapshot that was taken.
pub open spec fn outcome_of(memory: bool, reason: DiskOnlyReason, ms: u64, state_mb: u64) -> SnapshotOutcome {
    if memory {
        SnapshotOutcome::Memory { ms, state_mb }
    } else {
        SnapshotOutcome::DiskOnly { ms, reason }
    }
}

/// The outcome of a snapshot that was taken.
pub fn snapshot_outcome(memory: bool, reason: DiskOnlyReason, ms: u64, state_mb: u64) -> (o:
    SnapshotOutcome)
    ensures
        o == outcome_of(memory, reason, ms, state_mb),
{
    if memory {
        SnapshotOutcome::Memory { ms, state_mb }
    } else {
        SnapshotOutcome::DiskOnly { ms, reason }
    }
}

/// The directories that an operation on a snapshot works in.
#[derive(Debug)]
pub struct SnapDirs {
    pub dir: String,
    pub sdir: String,
}

/// What is wrong with the vessel and the label of a request, if anything. The
/// label comes first.
pub open spec fn request_problem(name: Seq<char>, label: Seq<char>) -> Option<VesselErrorView> {
    if !label_ok(label) {
        Some(VesselErrorView::BadLabel { label })
    } else {
        name_problem(name)
    }
}

fn snap_dirs(home: &str, name: &str, label: &str) -> (r: Result<SnapDirs, VesselError>)
    ensures
        match r {
            Ok(d) => request_problem(name@, label@) is None && d.dir@ == vessel_dir(home@, name@)
                && d.sdir@ == snapshot_dir(vessel_dir(home@, name@), label@),
            Err(e) => request_problem(name@, label@) == Some(e@),
        },
{
    match validate_label(label) {
        Err(e) => {
            return Err(e);
        },
        Ok(()) => {},
    }
    match dir_of(home, name) {
        Err(e) => Err(e),
        Ok(dir) => {
            let sdir: String = snap_dir(dir.as_str(), label);
            Ok(SnapDirs { dir, sdir })
        },
    }
}

/// Where a new snapshot goes, or why it is refused.
pub open spec fn snapshot_allowed(
    home: Seq<char>,
    name: Seq<char>,
    label: Seq<char>,
    there: bool,
    taken: bool,
    r: Result<SnapDirs, VesselError>,
) -> bool {
    match r {
        Ok(d) => request_problem(name, label) is None && there && !taken && d.dir@
            == vessel_dir(home, name) && d.sdir@ == snapshot_dir(
            vessel_dir(home, name),
            label,
        ),
        Err(e) => if request_problem(name, label) is Some {
            request_problem(name, label) == Some(e@)
        } else if !there {
            e@ == (VesselErrorView::NoVessel { name })
        } else {
            taken && e@ == (VesselErrorView::SnapshotExists { label })
        },
    }
}

/// Where a new snapshot goes; refused where the vessel does not exist or the
/// label is taken.
pub fn snapshot(home: &str, name: &str, label: &str, exists: bool, taken: bool) -> (r: Result<
    SnapDirs,
    VesselError,
>)
    ensures
        snapshot_allowed(home@, name@, label@, exists, taken, r),
{
    match snap_dirs(home, name, label) {
        Err(e) => Err(e),
        Ok(d) => {
            if !exists {
                return Err(VesselError::NoVessel { name: owned(name) });
            }
            if taken {
                return Err(VesselError::SnapshotExists { label: owned(label) });
            }
            Ok(d)
        },
    }
}

/// Where a snapshot is, or that there is none.
pub open spec fn snapshot_found(
    home: Seq<char>,
    name: Seq<char>,
    label: Seq<char>,
    there: bool,
    r: Result<SnapDirs, VesselError>,
) -> bool {
    match r {
        Ok(d) => request_problem(name, label) is None && there && d.dir@ == vessel_dir(
            home,
            name,
        ) && d.sdir@ == snapshot_dir(vessel_dir(home, name), label),
        Err(e) => if request_problem(name, label) is Some {
            request_problem(name, label) == Some(e@)
        } else {
            !there && e@ == (VesselErrorView::NoSnapshot { name, label })
        },
    }
}

fn existing_snapshot(home: &str, name: &str, label: &str, exists: bool) -> (r: Result<
    SnapDirs,
    VesselError,
>)
    ensures
        snapshot_found(home@, name@, label@, exists, r),
{
    match snap_dirs(home, name, label) {
        Err(e) => Err(e),
        Ok(d) => {
            if !exists {
                return Err(VesselError::NoSnapshot { name: owned(name), label: owned(label) });
            }
            Ok(d)
        },
    }
}

/// The directory to remove for a snapshot that exists.
pub fn snapshot_rm(home: &str, name: &str, label: &str, exists: bool) -> (r: Result<
    String,
    VesselError,
>)
    ensures
        match r {
            Ok(sdir) => request_problem(name@, label@) is None && exists && sdir@ == snapshot_dir(
                vessel_dir(home@, name@),
                label@,
            ),
            Err(e) => if request_problem(name@, label@) is Some {
                request_problem(name@, label@) == Some(e@)
            } else {
                !exists && e@ == (VesselErrorView::NoSnapshot { name: name@, label: label@ })
            },
        },
{
    match existing_snapshot(home, name, label, exists) {
        Ok(d) => Ok(d.sdir),
        Err(e) => Err(e),
    }
}

/// The directories for a roll back to a snapshot that exists.
pub fn restore(home: &str, name: &str, label: &str, exists: bool) -> (r: Result<
    SnapDirs,
    VesselError,
>)
    ensures
        snapshot_found(home@, name@, label@, exists, r),
{
    existing_snapshot(home, name, label, exists)
}

/// A snapshot as it is listed.
pub struct InfoView {
    pub label: Seq<char>,
    pub memory: bool,
}

impl View for SnapshotInfo {
    type V = InfoView;

    open spec fn view(&self) -> InfoView {
        InfoView { label: self.label@, memory: self.memory }
    }
}

pub open spec fn info_views(v: Seq<SnapshotInfo>) -> Seq<InfoView> {
    v.map_values(|i: SnapshotInfo| i@)
}

/// A snapshot's place in a list by labels.
pub open spec fn among(x: InfoView, s: Seq<InfoView>) -> Seq<InfoView>
    decreases s.len(),
{
    if s.len() == 0 {
        seq![x]
    } else if lex_le(x.label, s[0].label) {
        seq![x] + s
    } else {
        seq![s[0]] + among(x, s.skip(1))
    }
}

/// The snapshots, by their labels.
pub open spec fn infos_of(labels: Seq<Seq<char>>, memory: Seq<bool>) -> Seq<InfoView>
    decreases labels.len(),
{
    if labels.len() == 0 {
        Seq::empty()
    } else {
        among(
            InfoView { label: labels.last(), memory: memory[labels.len() - 1] },
            infos_of(labels.drop_last(), memory),
        )
    }
}

fn insert_info(list: &mut Vec<SnapshotInfo>, s: SnapshotInfo)
    ensures
        info_views(final(list)@) == among(s@, info_views(old(list)@)),
{
    let ghost lv = info_views(list@);
    let ghost x = s@;
    let nv: Vec<char> = to_chars(s.label.as_str());
    let mut i: usize = 0;
    assert(lv.skip(0) =~= lv);
    assert(lv.take(0) + among(x, lv.skip(0)) =~= among(x, lv));
    while i < list.len() && !text_le(&nv, &to_chars(list[i].label.as_str()))
        invariant
            i <= list@.len(),
            list@ == old(list)@,
            lv == info_views(list@),
            nv@ == x.label,
            lv.take(i as int) + among(x, lv.skip(i as int)) == among(x, lv),
        decreases list@.len() - i,
    {
        let ghost rest = lv.skip(i as int);
        assert(rest[0] == list@[i as int]@);
        assert(rest.skip(1) =~= lv.skip(i as int + 1));
        assert(lv.take(i as int) + (seq![rest[0]] + among(x, rest.skip(1))) =~= lv.take(
            i as int + 1,
        ) + among(x, rest.skip(1)));
        i = i + 1;
    }
    proof {
        let rest = lv.skip(i as int);
        if i < list@.len() {
            assert(rest[0] == list@[i as int]@);
            assert(among(x, rest) == seq![x] + rest);
        } else {
            assert(rest =~= Seq::empty());
            assert(among(x, rest) =~= seq![x] + rest);
        }
    }
    list.insert(i, s);
    assert(info_views(list@) =~= lv.take(i as int) + (seq![x] + lv.skip(i as int)));
}

/// The snapshots of a vessel, by their labels; for each directory, whether it
/// holds machine state.
pub fn snapshots(labels: &Vec<String>, memory: &Vec<bool>) -> (r: Vec<SnapshotInfo>)
    requires
        labels@.len() == memory@.len(),
    ensures
        info_views(r@) == infos_of(crate::text::views(labels@), memory@),
{
    let ghost all = crate::text::views(labels@);
    let mut r: Vec<SnapshotInfo> = Vec::new();
    let mut i: usize = 0;
    assert(all.take(0) =~= Seq::empty());
    assert(info_views(r@) =~= Seq::empty());
    while i < labels.len()
        invariant
            i <= labels@.len(),
            labels@.len() == memory@.len(),
            all == crate::text::views(labels@),
            info_views(r@) == infos_of(all.take(i as int), memory@),
        decreases labels@.len() - i,
    {
        let ghost longer = all.take(i as int + 1);
        assert(longer.drop_last() =~= all.take(i as int));
        assert(longer.last() == labels@[i as int]@);
        let info = SnapshotInfo { label: owned(labels[i].as_str()), memory: memory[i] };
        assert(info@ == (InfoView { label: longer.last(), memory: memory@[longer.len() - 1] }));
        insert_info(&mut r, info);
        i = i + 1;
    }
    assert(all.take(labels@.len() as int) =~= all);
    r
}

/// The labels of snapshots.
pub open spec fn labels_of(s: Seq<InfoView>) -> Seq<Seq<char>> {
    s.map_values(|v: InfoView| v.label)
}

proof fn lemma_among(x: InfoView, s: Seq<InfoView>)
    ensures
        labels_of(among(x, s)) == inserted(x.label, labels_of(s)),
    decreases s.len(),
{
    if s.len() == 0 {
        assert(labels_of(among(x, s)) =~= seq![x.label]);
    } else if lex_le(x.label, s[0].label) {
        assert(labels_of(among(x, s)) =~= seq![x.label] + labels_of(s));
    } else {
        lemma_among(x, s.skip(1));
        assert(labels_of(s.skip(1)) =~= labels_of(s).skip(1));
        assert(labels_of(among(x, s)) =~= seq![s[0].label] + labels_of(among(x, s.skip(1))));
    }
}

/// The list holds every snapshot, sorted by label, whatever order the
/// directories come in.
pub proof fn snapshots_are_listed_by_label(labels: Seq<Seq<char>>, memory: Seq<bool>)
    ensures
        labels_of(infos_of(labels, memory)) == in_order(labels),
    decreases labels.len(),
{
    if labels.len() == 0 {
        assert(labels_of(infos_of(labels, memory)) =~= in_order(labels));
    } else {
        snapshots_are_listed_by_label(labels.drop_last(), memory);
        lemma_among(
            InfoView { label: labels.last(), memory: memory[labels.len() - 1] },
            infos_of(labels.drop_last(), memory),
        );
    }
}

// Rolling back.

/// How a roll back ended.
#[derive(Debug)]
pub enum RestoreOutcome {
    /// The vessel resumed mid-execution.
    LiveResume,
    /// The resume failed; the disks were booted instead.
    ColdBootFallback { resume_error: String },
    /// The disks were put back; restarted if it had been running.
    DiskRestore { restarted: bool },
}

/// What to do next for a roll back.
#[derive(Debug)]
pub enum RestoreAction {
    /// Stop the vessel.
    Stop,
    /// Replace the vessel's disks by the snapshot's.
    CloneDisks,
    /// Start the vessel from the snapshot's machine state.
    Resume,
    /// Start the vessel.
    Start,
    Finish(RestoreOutcome),
    Fail(VesselError),
}

/// How a step of a roll back went.
#[derive(Debug)]
pub enum RestoreEvent {
    Done,
    /// The start found the vessel running.
    AlreadyRunning,
    Failed(String),
}

#[derive(Debug, Clone, Copy, PartialEq, Eq, Structural)]
pub enum RestoreAt {
    Begin,
    Stopping,
    Cloning,
    Resuming,
    ColdBooting,
    Restarting,
    End,
}

/// A roll back under way.
#[derive(Debug)]
pub struct RestoreMachine {
    memory: bool,
    was_running: bool,
    at: RestoreAt,
    resume_error: Option<String>,
}

pub struct RestoreState {
    pub memory: bool,
    pub was_running: bool,
    pub at: RestoreAt,
    pub resume_error: Option<Seq<char>>,
}

pub enum RestoreDo {
    Stop,
    CloneDisks,
    Resume,
    Start,
    LiveResume,
    ColdBootFallback(Seq<char>),
    DiskRestore(bool),
    Fail(Seq<char>),
}

pub enum RestoreSaw {
    Done,
    AlreadyRunning,
    Failed(Seq<char>),
}

impl View for RestoreMachine {
    type V = RestoreState;

    closed spec fn view(&self) -> RestoreState {
        RestoreState {
            memory: self.memory,
            was_running: self.was_running,
            at: self.at,
            resume_error: crate::text::opt_view(self.resume_error),
        }
    }
}

impl View for RestoreAction {
    type V = RestoreDo;

    open spec fn view(&self) -> RestoreDo {
        match self {
            RestoreAction::Stop => RestoreDo::Stop,
            RestoreAction::CloneDisks => RestoreDo::CloneDisks,
            RestoreAction::Resume => RestoreDo::Resume,
            RestoreAction::Start => RestoreDo::Start,
            RestoreAction::Finish(RestoreOutcome::LiveResume) => RestoreDo::LiveResume,
            RestoreAction::Finish(RestoreOutcome::ColdBootFallback {
                resume_error,
            }) => RestoreDo::ColdBootFallback(resume_error@),
            RestoreAction::Finish(RestoreOutcome::DiskRestore { restarted }) => RestoreDo::DiskRestore(
                *restarted,
            ),
            RestoreAction::Fail(e) => RestoreDo::Fail(e@.text()),
        }
    }
}

impl View for RestoreEvent {
    type V = RestoreSaw;

    open spec fn view(&self) -> RestoreSaw {
        match self {
            RestoreEvent::Done => RestoreSaw::Done,
            RestoreEvent::AlreadyRunning => RestoreSaw::AlreadyRunning,
            RestoreEvent::Failed(e) => RestoreSaw::Failed(e@),
        }
    }
}

impl RestoreState {
    pub open spec fn to(self, at: RestoreAt) -> RestoreState {
        RestoreState { at, ..self }
    }

    /// The next step: stop what runs, replace the disks, then resume from the
    /// machine state if there is one, falling back to a cold boot of the disks,
    /// else start again what ran.
    pub open spec fn next(self, saw: RestoreSaw) -> (RestoreState, RestoreDo) {
        match self.at {
            RestoreAt::Begin => if self.was_running {
                (self.to(RestoreAt::Stopping), RestoreDo::Stop)
            } else {
                (self.to(RestoreAt::Cloning), RestoreDo::CloneDisks)
            },
            RestoreAt::Stopping => match saw {
                RestoreSaw::Failed(e) => (self.to(RestoreAt::End), RestoreDo::Fail(e)),
                _ => (self.to(RestoreAt::Cloning), RestoreDo::CloneDisks),
            },
            RestoreAt::Cloning => match saw {
                RestoreSaw::Failed(e) => (self.to(RestoreAt::End), RestoreDo::Fail(e)),
                _ => if self.memory {
                    (self.to(RestoreAt::Resuming), RestoreDo::Resume)
                } else if self.was_running {
                    (self.to(RestoreAt::Restarting), RestoreDo::Start)
                } else {
                    (self.to(RestoreAt::End), RestoreDo::DiskRestore(false))
                },
            },
            RestoreAt::Resuming => match saw {
                RestoreSaw::Done => (self.to(RestoreAt::End), RestoreDo::LiveResume),
                RestoreSaw::AlreadyRunning => (
                    self.to(RestoreAt::End),
                    RestoreDo::ColdBootFallback("worker already running"@),
                ),
                RestoreSaw::Failed(e) => (
                    RestoreState { at: RestoreAt::ColdBooting, resume_error: Some(e), ..self },
                    RestoreDo::Start,
                ),
            },
            RestoreAt::ColdBooting => match saw {
                RestoreSaw::Failed(e) => (self.to(RestoreAt::End), RestoreDo::Fail(e)),
                _ => (
                    self.to(RestoreAt::End),
                    RestoreDo::ColdBootFallback(
                        match self.resume_error {
                            Some(e) => e,
                            None => Seq::empty(),
                        },
                    ),
                ),
            },
            RestoreAt::Restarting => match saw {
                RestoreSaw::Failed(e) => (self.to(RestoreAt::End), RestoreDo::Fail(e)),
                _ => (self.to(RestoreAt::End), RestoreDo::DiskRestore(true)),
            },
            RestoreAt::End => (self, RestoreDo::DiskRestore(self.was_running)),
        }
    }
}

fn restore_fail(what: String) -> (a: RestoreAction)
    ensures
        a@ == RestoreDo::Fail(what@),
{
    RestoreAction::Fail(VesselError::Failed { what })
}

impl RestoreMachine {
    /// A roll back to a snapshot with machine state or without, of a vessel
    /// that was running or not.
    pub fn new(memory: bool, was_running: bool) -> (m: RestoreMachine)
        ensures
            m@ == (RestoreState { memory, was_running, at: RestoreAt::Begin, resume_error: None }),
    {
        RestoreMachine { memory, was_running, at: RestoreAt::Begin, resume_error: None }
    }

    /// What to do next, given how the last step went.
    pub fn next(&mut self, event: RestoreEvent) -> (action: RestoreAction)
        ensures
            (final(self)@, action@) == old(self)@.next(event@),
    {
        match self.at {
            RestoreAt::Begin => {
                if self.was_running {
                    self.at = RestoreAt::Stopping;
                    RestoreAction::Stop
                } else {
                    self.at = RestoreAt::Cloning;
                    RestoreAction::CloneDisks
                }
            },
            RestoreAt::Stopping => match event {
                RestoreEvent::Failed(e) => {
                    self.at = RestoreAt::End;
                    restore_fail(e)
                },
                _ => {
                    self.at = RestoreAt::Cloning;
                    RestoreAction::CloneDisks
                },
            },
            RestoreAt::Cloning => match event {
                RestoreEvent::Failed(e) => {
                    self.at = RestoreAt::End;
                    restore_fail(e)
                },
                _ => {
                    if self.memory {
                        self.at = RestoreAt::Resuming;
                        RestoreAction::Resume
                    } else if self.was_running {
                        self.at = RestoreAt::Restarting;
                        RestoreAction::Start
                    } else {
                        self.at = RestoreAt::End;
                        RestoreAction::Finish(RestoreOutcome::DiskRestore { restarted: false })
                    }
                },
            },
            RestoreAt::Resuming => match event {
                RestoreEvent::Done => {
                    self.at = RestoreAt::End;
                    RestoreAction::Finish(RestoreOutcome::LiveResume)
                },
                RestoreEvent::AlreadyRunning => {
                    self.at = RestoreAt::End;
                    RestoreAction::Finish(
                        RestoreOutcome::ColdBootFallback {
                            resume_error: owned("worker already running"),
                        },
                    )
                },
                RestoreEvent::Failed(e) => {
                    // The disks were cloned while paused, so that a cold boot of
                    // them is crash-consistent.
                    self.at = RestoreAt::ColdBooting;
                    self.resume_error = Some(e);
                    RestoreAction::Start
                },
            },
            RestoreAt::ColdBooting => {
                self.at = RestoreAt::End;
                match event {
                    RestoreEvent::Failed(e) => restore_fail(e),
                    _ => {
                        let resume_error: String = match &self.resume_error {
                            Some(e) => owned(e.as_str()),
                            None => String::new(),
                        };
                        RestoreAction::Finish(RestoreOutcome::ColdBootFallback { resume_error })
                    },
                }
            },
            RestoreAt::Restarting => {
                self.at = RestoreAt::End;
                match event {
                    RestoreEvent::Failed(e) => restore_fail(e),
                    _ => RestoreAction::Finish(RestoreOutcome::DiskRestore { restarted: true }),
                }
            },
            RestoreAt::End => RestoreAction::Finish(
                RestoreOutcome::DiskRestore { restarted: self.was_running },
            ),
        }
    }
}

/// A resume that fails is not the end: the vessel is started on the restored
/// disks, and if that works the roll back is a success that names the error.
pub proof fn failed_resume_falls_back(s: RestoreState, e: Seq<char>)
    requires
        s.at == RestoreAt::Resuming,
    ensures
        ({
            let (t, a) = s.next(RestoreSaw::Failed(e));
            let (u, b) = t.next(RestoreSaw::Done);
            a == RestoreDo::Start && b == RestoreDo::ColdBootFallback(e)
        }),
{
}

/// The disks are replaced only while the vessel is down: a vessel that was
/// running is stopped first, and if that fails nothing is replaced.
pub proof fn disks_are_replaced_only_when_stopped(memory: bool, was_running: bool, saw: RestoreSaw, e: Seq<
    char,
>)
    ensures
        ({
            let s = RestoreState {
                memory,
                was_running,
                at: RestoreAt::Begin,
                resume_error: None,
            };
            let (t, a) = s.next(saw);
            &&& was_running ==> a == RestoreDo::Stop && t.next(RestoreSaw::Failed(e)).1
                == RestoreDo::Fail(e) && t.next(RestoreSaw::Done).1 == RestoreDo::CloneDisks
            &&& !was_running ==> a == RestoreDo::CloneDisks
        }),
{
}

// Branching.

/// The names of the branches: the name itself, or numbered from one.
pub open spec fn branch_names_of(new_name: Seq<char>, count: u32) -> Seq<Seq<char>> {
    if count <= 1 {
        seq![new_name]
    } else {
        Seq::new(count as nat, |i: int| new_name + "-"@ + crate::text::decimal((i + 1) as nat))
    }
}

pub fn branch_names(new_name: &str, count: u32) -> (names: Vec<String>)
    ensures
        crate::text::views(names@) == branch_names_of(new_name@, count),
{
    let ghost all = branch_names_of(new_name@, count);
    let mut names: Vec<String> = Vec::new();
    if count <= 1 {
        names.push(owned(new_name));
        assert(crate::text::views(names@) =~= all);
        return names;
    }
    let mut i: u32 = 0;
    assert(crate::text::views(names@) =~= all.take(0));
    while i < count
        invariant
            i <= count,
            count > 1,
            all == branch_names_of(new_name@, count),
            crate::text::views(names@) == all.take(i as int),
        decreases count - i,
    {
        let ghost before = crate::text::views(names@);
        let number: String = decimal_str(i as u64 + 1);
        let name: String = cat3(new_name, "-", number.as_str());
        let ghost nv = name@;
        names.push(name);
        proof {
            assert(all[i as int] == nv);
            assert(crate::text::views(names@) =~= before.push(nv));
            assert(before.push(nv) =~= all.take(i as int + 1));
        }
        i = i + 1;
    }
    assert(all.take(count as int) =~= all);
    names
}

/// No two branches get the same name.
pub proof fn branch_names_are_distinct(new_name: Seq<char>, count: u32, i: int, j: int)
    requires
        0 <= i < j < branch_names_of(new_name, count).len(),
    ensures
        branch_names_of(new_name, count)[i] != branch_names_of(new_name, count)[j],
{
    let a = crate::text::decimal((i + 1) as nat);
    let b = crate::text::decimal((j + 1) as nat);
    let head = new_name + "-"@;
    crate::text::decimal_reads_back((i + 1) as nat);
    crate::text::decimal_reads_back((j + 1) as nat);
    if head + a == head + b {
        assert((head + a).skip(head.len() as int) =~= a);
        assert((head + b).skip(head.len() as int) =~= b);
    }
}

/// The path's file below another directory; a path without a file name stays.
pub open spec fn moved(path: Seq<char>, dir: Seq<char>) -> Seq<char> {
    match crate::paths::file_name_of(path) {
        Some(f) => joined_path(dir, f),
        None => path,
    }
}

fn move_to(path: &str, dir: &str) -> (p: String)
    ensures
        p@ == moved(path@, dir@),
{
    match file_name(path) {
        Some(f) => join(dir, f.as_str()),
        None => owned(path),
    }
}

/// A description whose disks, console, sockets and control socket stand in
/// `dir`.
pub open spec fn retargeted(s: SpecView, dir: Seq<char>) -> SpecView {
    SpecView {
        disks: s.disks.map_values(
            |d: DiskView| DiskView { path: moved(d.path, dir), read_only: d.read_only },
        ),
        console: match s.console {
            Some(p) => Some(moved(p, dir)),
            None => None,
        },
        vsock_ports: s.vsock_ports.map_values(
            |m: PortView| PortView { port: m.port, host_path: moved(m.host_path, dir) },
        ),
        control_path: match s.control_path {
            Some(p) => Some(moved(p, dir)),
            None => None,
        },
        ..s
    }
}

fn move_disks(disks: &Vec<DiskSpec>, dir: &str) -> (r: Vec<DiskSpec>)
    ensures
        disk_views(r@) == disk_views(disks@).map_values(
            |d: DiskView| DiskView { path: moved(d.path, dir@), read_only: d.read_only },
        ),
{
    let ghost all = disk_views(disks@).map_values(
        |d: DiskView| DiskView { path: moved(d.path, dir@), read_only: d.read_only },
    );
    let mut r: Vec<DiskSpec> = Vec::new();
    let mut i: usize = 0;
    assert(disk_views(r@) =~= all.take(0));
    while i < disks.len()
        invariant
            i <= disks@.len(),
            r@.len() == i,
            all == disk_views(disks@).map_values(
                |d: DiskView| DiskView { path: moved(d.path, dir@), read_only: d.read_only },
            ),
            disk_views(r@) == all.take(i as int),
        decreases disks@.len() - i,
    {
        let ghost before = disk_views(r@);
        r.push(
            DiskSpec { path: move_to(disks[i].path.as_str(), dir), read_only: disks[i].read_only },
        );
        proof {
            assert(all[i as int] == r@[i as int]@);
            assert(disk_views(r@) =~= before.push(all[i as int]));
            assert(before.push(all[i as int]) =~= all.take(i as int + 1));
        }
        i = i + 1;
    }
    assert(all.take(disks@.len() as int) =~= all);
    r
}

fn move_ports(ports: &Vec<VsockPortMap>, dir: &str) -> (r: Vec<VsockPortMap>)
    ensures
        port_views(r@) == port_views(ports@).map_values(
            |m: PortView| PortView { port: m.port, host_path: moved(m.host_path, dir@) },
        ),
{
    let ghost all = port_views(ports@).map_values(
        |m: PortView| PortView { port: m.port, host_path: moved(m.host_path, dir@) },
    );
    let mut r: Vec<VsockPortMap> = Vec::new();
    let mut i: usize = 0;
    assert(port_views(r@) =~= all.take(0));
    while i < ports.len()
        invariant
            i <= ports@.len(),
            r@.len() == i,
            all == port_views(ports@).map_values(
                |m: PortView| PortView { port: m.port, host_path: moved(m.host_path, dir@) },
            ),
            port_views(r@) == all.take(i as int),
        decreases ports@.len() - i,
    {
        let ghost before = port_views(r@);
        r.push(
            VsockPortMap {
                port: ports[i].port,
                host_path: move_to(ports[i].host_path.as_str(), dir),
            },
        );
        proof {
            assert(all[i as int] == r@[i as int]@);
            assert(port_views(r@) =~= before.push(all[i as int]));
            assert(before.push(all[i as int]) =~= all.take(i as int + 1));
        }
        i = i + 1;
    }
    assert(all.take(ports@.len() as int) =~= all);
    r
}

/// Point a description's paths at another directory.
pub fn retarget_spec(spec: VmSpec, dir: &str) -> (r: VmSpec)
    ensures
        r@ == retargeted(spec@, dir@),
{
    let disks: Vec<DiskSpec> = move_disks(&spec.disks, dir);
    let vsock_ports: Vec<VsockPortMap> = move_ports(&spec.vsock_ports, dir);
    let console: ConsoleSpec = match &spec.console {
        ConsoleSpec::File(p) => ConsoleSpec::File(move_to(p.as_str(), dir)),
        ConsoleSpec::Off => ConsoleSpec::Off,
    };
    let control_path: Option<String> = match &spec.control_path {
        Some(p) => Some(move_to(p.as_str(), dir)),
        None => None,
    };
    VmSpec {
        name: spec.name,
        cpus: spec.cpus,
        mem_mib: spec.mem_mib,
        boot: spec.boot,
        disks,
        shares: spec.shares,
        net: spec.net,
        vsock: spec.vsock,
        console,
        balloon: spec.balloon,
        rng: spec.rng,
        rosetta: spec.rosetta,
        gpu: spec.gpu,
        control_path,
        restore_path: spec.restore_path,
        vsock_ports,
        backend: spec.backend,
        mac: spec.mac,
        machine_id: spec.machine_id,
    }
}

/// The description of a branch: its own name and directory. A branch that
/// boots gets an identity of its own on vz; one that resumes keeps the saved
/// configuration.
pub open spec fn branch_spec_of(
    s: SpecView,
    name: Seq<char>,
    dir: Seq<char>,
    live: bool,
    mac: Option<Seq<char>>,
    machine_id: Option<Seq<char>>,
) -> SpecView {
    let r = retargeted(SpecView { name: "vessel-"@ + name, ..s }, dir);
    if !live && s.backend == Some("vz"@) {
        SpecView { mac, machine_id, ..r }
    } else {
        r
    }
}

pub fn branch_spec(
    spec: VmSpec,
    name: &str,
    dir: &str,
    live: bool,
    mac: Option<String>,
    machine_id: Option<String>,
) -> (r: VmSpec)
    ensures
        r@ == branch_spec_of(
            spec@,
            name@,
            dir@,
            live,
            crate::text::opt_view(mac),
            crate::text::opt_view(machine_id),
        ),
{
    let vz: bool = match &spec.backend {
        Some(b) => same(b.as_str(), "vz"),
        None => false,
    };
    let r: VmSpec = retarget_spec(spec, dir);
    let fresh: bool = !live && vz;
    VmSpec {
        name: cat2("vessel-", name),
        cpus: r.cpus,
        mem_mib: r.mem_mib,
        boot: r.boot,
        disks: r.disks,
        shares: r.shares,
        net: r.net,
        vsock: r.vsock,
        console: r.console,
        balloon: r.balloon,
        rng: r.rng,
        rosetta: r.rosetta,
        gpu: r.gpu,
        control_path: r.control_path,
        restore_path: r.restore_path,
        vsock_ports: r.vsock_ports,
        backend: r.backend,
        mac: if fresh { mac } else { r.mac },
        machine_id: if fresh { machine_id } else { r.machine_id },
    }
}

// What the operations come to, from their beginning to their end.

/// The steps that a snapshot asks for where the earlier ones went as `failures`
/// say; the first of those only gets it going.
pub open spec fn snap_run(s: SnapState, failures: Seq<Option<Seq<char>>>) -> (SnapState, Seq<SnapDo>)
    decreases failures.len(),
{
    if failures.len() == 0 {
        (s, Seq::empty())
    } else {
        let (t, dos) = snap_run(s, failures.drop_last());
        let (u, a) = t.next(failures.last());
        (u, dos.push(a))
    }
}

proof fn lemma_snap_run(s: SnapState, failures: Seq<Option<Seq<char>>>, f: Option<Seq<char>>)
    ensures
        ({
            let (t, dos) = snap_run(s, failures);
            snap_run(s, failures.push(f)) == (t.next(f).0, dos.push(t.next(f).1))
        }),
{
    assert(failures.push(f).drop_last() =~= failures);
}

/// So many steps, none of which failed.
pub open spec fn all_well(n: nat) -> Seq<Option<Seq<char>>> {
    Seq::new(n, |i: int| None::<Seq<char>>)
}

proof fn lemma_all_well(n: nat)
    ensures
        all_well(n + 1) == all_well(n).push(None),
        all_well(0) == Seq::<Option<Seq<char>>>::empty(),
{
    assert(all_well(n + 1) =~= all_well(n).push(None));
    assert(all_well(0) =~= Seq::empty());
}

/// A snapshot that goes well. With memory the guest is paused, its state saved
/// and its disks cloned while it is paused, and it runs on: it is never stopped.
/// Without, the disks are cloned while the vessel is down, which is so for that
/// time only where it was running.
pub proof fn a_snapshot_goes_by_these_steps(memory: bool, running: bool)
    ensures
        ({
            let s = SnapState { memory, running, at: SnapAt::Begin, error: None };
            let steps = if memory {
                seq![
                    SnapDo::MakeDir,
                    SnapDo::Connect,
                    SnapDo::Pause,
                    SnapDo::Save,
                    SnapDo::CloneDisks,
                    SnapDo::Resume,
                    SnapDo::Finish,
                ]
            } else if running {
                seq![
                    SnapDo::Stop,
                    SnapDo::MakeDir,
                    SnapDo::CloneDisks,
                    SnapDo::Start,
                    SnapDo::Finish,
                ]
            } else {
                seq![SnapDo::MakeDir, SnapDo::CloneDisks, SnapDo::Finish]
            };
            snap_run(s, all_well(steps.len())).1 == steps
        }),
{
    let s = SnapState { memory, running, at: SnapAt::Begin, error: None };
    let s1 = s.next(None).0;
    let s2 = s1.next(None).0;
    let s3 = s2.next(None).0;
    let s4 = s3.next(None).0;
    let s5 = s4.next(None).0;
    let s6 = s5.next(None).0;
    lemma_all_well(0);
    lemma_all_well(1);
    lemma_all_well(2);
    lemma_all_well(3);
    lemma_all_well(4);
    lemma_all_well(5);
    lemma_all_well(6);
    lemma_snap_run(s, all_well(0), None);
    lemma_snap_run(s, all_well(1), None);
    lemma_snap_run(s, all_well(2), None);
    lemma_snap_run(s, all_well(3), None);
    lemma_snap_run(s, all_well(4), None);
    lemma_snap_run(s, all_well(5), None);
    lemma_snap_run(s, all_well(6), None);
    let none = Seq::<SnapDo>::empty();
    assert(none.push(s.next(None).1).push(s1.next(None).1).push(s2.next(None).1) =~= seq![
        s.next(None).1,
        s1.next(None).1,
        s2.next(None).1,
    ]);
    if memory {
        assert(snap_run(s, all_well(7)).1 =~= seq![
            SnapDo::MakeDir,
            SnapDo::Connect,
            SnapDo::Pause,
            SnapDo::Save,
            SnapDo::CloneDisks,
            SnapDo::Resume,
            SnapDo::Finish,
        ]);
    } else if running {
        assert(snap_run(s, all_well(5)).1 =~= seq![
            SnapDo::Stop,
            SnapDo::MakeDir,
            SnapDo::CloneDisks,
            SnapDo::Start,
            SnapDo::Finish,
        ]);
    } else {
        assert(snap_run(s, all_well(3)).1 =~= seq![
            SnapDo::MakeDir,
            SnapDo::CloneDisks,
            SnapDo::Finish,
        ]);
    }
}

/// The step whose outcome a snapshot waits for.
pub open spec fn snap_asked(s: SnapState) -> Option<SnapDo> {
    match s.at {
        SnapAt::Begin => None,
        SnapAt::MakingDir => Some(SnapDo::MakeDir),
        SnapAt::Connecting => Some(SnapDo::Connect),
        SnapAt::Pausing => Some(SnapDo::Pause),
        SnapAt::Saving => Some(SnapDo::Save),
        SnapAt::Cloning => Some(SnapDo::CloneDisks),
        SnapAt::Resuming => Some(SnapDo::Resume),
        SnapAt::CleaningUp => Some(SnapDo::RemoveDir),
        SnapAt::Stopping => Some(SnapDo::Stop),
        SnapAt::Restarting => Some(SnapDo::Start),
        SnapAt::End => None,
    }
}

/// A snapshot waits for what it asked for last, and a failed step is never
/// passed over: before the guest is paused, and where it never is, the snapshot
/// fails at once with the words of that step; once it is paused, the guest is
/// resumed first and the directory removed.
pub proof fn a_failed_step_fails_the_snapshot(
    s: SnapState,
    failed: Option<Seq<char>>,
    e: Seq<char>,
    second: Option<Seq<char>>,
    third: Option<Seq<char>>,
)
    requires
        s.at != SnapAt::End,
        s.error is None,
    ensures
        ({
            let (t, a) = s.next(failed);
            if a is Finish || a is Fail {
                t.at == SnapAt::End
            } else {
                snap_asked(t) == Some(a)
            }
        }),
        ({
            let (t, a) = s.next(Some(e));
            let (u, b) = t.next(second);
            let (v, c) = u.next(third);
            match snap_asked(s) {
                None => !(a is Finish) && !(a is Fail),
                Some(step) => if step is Save || (step is CloneDisks && s.memory) {
                    &&& a is Resume
                    &&& b is RemoveDir
                    &&& c == SnapDo::Fail("memory snapshot failed (vessel resumed unharmed): "@ + e)
                } else if step is RemoveDir {
                    true
                } else {
                    a == SnapDo::Fail(e)
                },
            }
        }),
{
}

/// The steps that a roll back asks for, as for a snapshot.
pub open spec fn restore_run(s: RestoreState, saws: Seq<RestoreSaw>) -> (
    RestoreState,
    Seq<RestoreDo>,
)
    decreases saws.len(),
{
    if saws.len() == 0 {
        (s, Seq::empty())
    } else {
        let (t, dos) = restore_run(s, saws.drop_last());
        let (u, a) = t.next(saws.last());
        (u, dos.push(a))
    }
}

proof fn lemma_restore_run(s: RestoreState, saws: Seq<RestoreSaw>, saw: RestoreSaw)
    ensures
        ({
            let (t, dos) = restore_run(s, saws);
            restore_run(s, saws.push(saw)) == (t.next(saw).0, dos.push(t.next(saw).1))
        }),
{
    assert(saws.push(saw).drop_last() =~= saws);
}

/// A roll back that goes well: what runs is stopped, the disks are replaced, and
/// then with machine state the vessel is resumed, whether it was running or not;
/// without, it is started again if and only if it was running before, and the
/// outcome says which.
pub proof fn a_roll_back_goes_by_these_steps(memory: bool, was_running: bool)
    ensures
        ({
            let s = RestoreState { memory, was_running, at: RestoreAt::Begin, resume_error: None };
            let steps = (if was_running {
                seq![RestoreDo::Stop]
            } else {
                Seq::empty()
            }) + seq![RestoreDo::CloneDisks] + (if memory {
                seq![RestoreDo::Resume, RestoreDo::LiveResume]
            } else if was_running {
                seq![RestoreDo::Start, RestoreDo::DiskRestore(true)]
            } else {
                seq![RestoreDo::DiskRestore(false)]
            });
            let saws = Seq::new(steps.len(), |i: int| RestoreSaw::Done);
            restore_run(s, saws).1 == steps
        }),
{
    let s = RestoreState { memory, was_running, at: RestoreAt::Begin, resume_error: None };
    let d = RestoreSaw::Done;
    let none = Seq::<RestoreSaw>::empty();
    lemma_restore_run(s, none, d);
    lemma_restore_run(s, none.push(d), d);
    lemma_restore_run(s, none.push(d).push(d), d);
    lemma_restore_run(s, none.push(d).push(d).push(d), d);
    let two = none.push(d).push(d);
    let steps = (if was_running {
        seq![RestoreDo::Stop]
    } else {
        Seq::empty()
    }) + seq![RestoreDo::CloneDisks] + (if memory {
        seq![RestoreDo::Resume, RestoreDo::LiveResume]
    } else if was_running {
        seq![RestoreDo::Start, RestoreDo::DiskRestore(true)]
    } else {
        seq![RestoreDo::DiskRestore(false)]
    });
    let saws = Seq::new(steps.len(), |i: int| RestoreSaw::Done);
    if was_running {
        assert(saws =~= two.push(d).push(d));
    } else if memory {
        assert(saws =~= two.push(d));
    } else {
        assert(saws =~= two);
    }
    assert(restore_run(s, saws).1 =~= steps);
}

/// The step whose outcome a roll back waits for.
pub open spec fn restore_asked(s: RestoreState) -> Option<RestoreDo> {
    match s.at {
        RestoreAt::Begin => None,
        RestoreAt::Stopping => Some(RestoreDo::Stop),
        RestoreAt::Cloning => Some(RestoreDo::CloneDisks),
        RestoreAt::Resuming => Some(RestoreDo::Resume),
        RestoreAt::ColdBooting => Some(RestoreDo::Start),
        RestoreAt::Restarting => Some(RestoreDo::Start),
        RestoreAt::End => None,
    }
}

/// A roll back waits for what it asked for last. A failed step fails it with the
/// words of that step, but for a resume, which a start follows; a resume that
/// found the vessel running counts as a fallback. A vessel is started only where
/// it was running before or a resume of it failed.
pub proof fn a_failed_step_fails_the_roll_back(s: RestoreState, saw: RestoreSaw, e: Seq<char>)
    requires
        s.at != RestoreAt::End,
        s.at == RestoreAt::Restarting ==> s.was_running && !s.memory,
        s.at == RestoreAt::Resuming || s.at == RestoreAt::ColdBooting ==> s.memory,
    ensures
        ({
            let (t, a) = s.next(saw);
            &&& if a is Stop || a is CloneDisks || a is Resume || a is Start {
                restore_asked(t) == Some(a)
            } else {
                t.at == RestoreAt::End
            }
            &&& a is Stop ==> s.was_running
            &&& a is Resume ==> s.memory && !(saw is Failed)
            &&& a is Start ==> (if s.memory {
                restore_asked(s) == Some(RestoreDo::Resume) && saw is Failed
            } else {
                s.was_running
            })
            &&& a is LiveResume ==> restore_asked(s) == Some(RestoreDo::Resume) && saw is Done
            &&& a is DiskRestore ==> !s.memory && a == RestoreDo::DiskRestore(s.was_running)
            &&& a is ColdBootFallback ==> s.memory
            &&& t.at == RestoreAt::Restarting ==> s.was_running && !s.memory
            &&& t.at == RestoreAt::Resuming || t.at == RestoreAt::ColdBooting ==> s.memory
            &&& t.memory == s.memory && t.was_running == s.was_running
        }),
        ({
            let (t, a) = s.next(RestoreSaw::Failed(e));
            match restore_asked(s) {
                None => !(a is Fail),
                Some(RestoreDo::Resume) => a is Start && t.next(RestoreSaw::Done).1
                    == RestoreDo::ColdBootFallback(e),
                Some(_) => a == RestoreDo::Fail(e),
            }
        }),
        restore_asked(s) == Some(RestoreDo::Resume) ==> s.next(RestoreSaw::AlreadyRunning).1
            == RestoreDo::ColdBootFallback("worker already running"@),
{
}

/// Whether a file in a vessel's directory is one of its disks.
pub open spec fn is_disk(f: Seq<char>) -> bool {
    ||| f == "rootfs.img"@
    ||| f == "data.img"@
    ||| f.len() >= 4 && f.take(4) == "vol-"@ && f.skip(f.len() - 4) == ".img"@
}

/// Whether a clone carries a file from one directory to the other, under its
/// name.
pub open spec fn carries(p: (Seq<char>, Seq<char>), f: Seq<char>, from: Seq<char>, to: Seq<char>) -> bool {
    p.0 == joined_path(from, f) && p.1 == joined_path(to, f)
}

proof fn lemma_clones_all(
    entries: Seq<Seq<char>>,
    images: Seq<Seq<char>>,
    from: Seq<char>,
    to: Seq<char>,
    f: Seq<char>,
)
    requires
        images.contains(f),
        entries.contains(f),
    ensures
        exists|k: int|
            0 <= k < clones_of(entries, images, from, to).len() && carries(
                #[trigger] clones_of(entries, images, from, to)[k],
                f,
                from,
                to,
            ),
    decreases images.len(),
{
    let init = images.drop_last();
    let before = clones_of(entries, init, from, to);
    let all = clones_of(entries, images, from, to);
    let i = choose|i: int| 0 <= i < images.len() && images[i] == f;
    if images.last() == f {
        assert(carries(all[before.len() as int], f, from, to));
    } else {
        assert(init[i] == f);
        lemma_clones_all(entries, init, from, to, f);
        let j = choose|j: int| 0 <= j < before.len() && carries(#[trigger] before[j], f, from, to);
        assert(all[j] == before[j]);
        assert(carries(all[j], f, from, to));
    }
}

proof fn lemma_clones_only(
    entries: Seq<Seq<char>>,
    images: Seq<Seq<char>>,
    from: Seq<char>,
    to: Seq<char>,
    k: int,
)
    requires
        0 <= k < clones_of(entries, images, from, to).len(),
    ensures
        exists|f: Seq<char>|
            images.contains(f) && entries.contains(f) && #[trigger] carries(
                clones_of(entries, images, from, to)[k],
                f,
                from,
                to,
            ),
    decreases images.len(),
{
    let init = images.drop_last();
    let before = clones_of(entries, init, from, to);
    let all = clones_of(entries, images, from, to);
    if k < before.len() {
        lemma_clones_only(entries, init, from, to, k);
        let f = choose|f: Seq<char>|
            init.contains(f) && entries.contains(f) && #[trigger] carries(before[k], f, from, to);
        let i = choose|i: int| 0 <= i < init.len() && init[i] == f;
        assert(images[i] == f);
        assert(all[k] == before[k]);
        assert(carries(all[k], f, from, to));
    } else {
        assert(images[images.len() - 1] == images.last());
        assert(carries(all[k], images.last(), from, to));
    }
}

proof fn lemma_images(entries: Seq<Seq<char>>, f: Seq<char>)
    requires
        entries.contains(f),
    ensures
        images_of(entries).contains(f) == is_disk(f),
{
    broadcast use vstd::seq_lib::group_to_multiset_ensures;

    let images = images_of(entries);
    let vol = |n: Seq<char>| crate::vessels::volume_file(n);
    let vols = entries.filter(vol);
    let sorted = in_order(vols);
    crate::vessels::sorting_sorts(vols);
    lemma_volume_file(f);
    if vol(f) {
        let j = choose|j: int| 0 <= j < entries.len() && entries[j] == f;
        entries.lemma_filter_contains(vol, j);
    }
    assert(vols.contains(f) == (vols.to_multiset().count(f) > 0));
    assert(sorted.contains(f) == (sorted.to_multiset().count(f) > 0));
    if is_disk(f) {
        if f == "rootfs.img"@ {
            assert(images[0] == f);
        } else if f == "data.img"@ {
            assert(images[1] == f);
        } else {
            let i = choose|i: int| 0 <= i < sorted.len() && sorted[i] == f;
            assert(images[i + 2] == f);
        }
    } else if images.contains(f) {
        let i = choose|i: int| 0 <= i < images.len() && images[i] == f;
        assert(i >= 2 && sorted[i - 2] == f);
        assert(vols.contains(f));
        let j = choose|j: int| 0 <= j < vols.len() && vols[j] == f;
        entries.lemma_filter_pred(vol, j);
    }
}

/// A snapshot, a roll back and a branch carry every disk that is there, each to
/// a file of the same name, and nothing else.
pub proof fn every_disk_is_carried(
    entries: Seq<Seq<char>>,
    from: Seq<char>,
    to: Seq<char>,
    f: Seq<char>,
    k: int,
)
    ensures
        ({
            let c = clones_of(entries, images_of(entries), from, to);
            &&& is_disk(f) && entries.contains(f) ==> exists|j: int|
                0 <= j < c.len() && carries(#[trigger] c[j], f, from, to)
            &&& 0 <= k < c.len() ==> exists|g: Seq<char>|
                is_disk(g) && entries.contains(g) && #[trigger] carries(c[k], g, from, to)
        }),
{
    let images = images_of(entries);
    let c = clones_of(entries, images, from, to);
    if is_disk(f) && entries.contains(f) {
        lemma_images(entries, f);
        lemma_clones_all(entries, images, from, to, f);
    }
    if 0 <= k < c.len() {
        lemma_clones_only(entries, images, from, to, k);
        let g = choose|g: Seq<char>|
            images.contains(g) && entries.contains(g) && #[trigger] carries(c[k], g, from, to);
        lemma_images(entries, g);
        assert(carries(c[k], g, from, to));
    }
}

proof fn lemma_volume_file(f: Seq<char>)
    ensures
        crate::vessels::volume_file(f) ==> is_disk(f),
        is_disk(f) && f != "rootfs.img"@ && f != "data.img"@ ==> crate::vessels::volume_file(f),
{
    reveal_strlit("vol-");
    reveal_strlit(".img");
    if f.len() >= 4 {
        assert(f.take(4) =~= f.subrange(0, 4));
        assert(f.skip(f.len() - 4) =~= f.subrange(f.len() - 4, f.len() as int));
    }
}

/// A branch stands in its own directory: whatever of the source's description
/// stands in the source's directory, under a plain name, stands under the same
/// name in the branch's; what it shares with the source it keeps.
pub proof fn a_branch_stands_on_its_own(
    s: SpecView,
    name: Seq<char>,
    dir: Seq<char>,
    live: bool,
    mac: Option<Seq<char>>,
    machine_id: Option<Seq<char>>,
    src: Seq<char>,
    f: Seq<char>,
    i: int,
)
    requires
        crate::paths::plain_file(f),
    ensures
        ({
            let r = branch_spec_of(s, name, dir, live, mac, machine_id);
            let old = joined_path(src, f);
            let new = joined_path(dir, f);
            &&& r.name == "vessel-"@ + name
            &&& r.disks.len() == s.disks.len()
            &&& 0 <= i < s.disks.len() && s.disks[i].path == old ==> r.disks[i].path == new
            &&& 0 <= i < s.disks.len() ==> r.disks[i].read_only == s.disks[i].read_only
            &&& s.console == Some(old) ==> r.console == Some(new)
            &&& s.console is None ==> r.console is None
            &&& r.vsock_ports.len() == s.vsock_ports.len()
            &&& 0 <= i < s.vsock_ports.len() && s.vsock_ports[i].host_path == old
                ==> r.vsock_ports[i].host_path == new
            &&& 0 <= i < s.vsock_ports.len() ==> r.vsock_ports[i].port == s.vsock_ports[i].port
            &&& s.control_path == Some(old) ==> r.control_path == Some(new)
            &&& s.control_path is None ==> r.control_path is None
            &&& r == (SpecView {
                name: r.name,
                disks: r.disks,
                console: r.console,
                vsock_ports: r.vsock_ports,
                control_path: r.control_path,
                mac: r.mac,
                machine_id: r.machine_id,
                ..s
            })
        }),
{
    crate::paths::joined_paths_take_apart(src, f, f);
}

/// A branch that resumes keeps the identity that its machine state was saved
/// with, and so does one that is not on vz; one on vz that boots gets its own.
pub proof fn a_booted_branch_has_its_own_identity(
    s: SpecView,
    name: Seq<char>,
    dir: Seq<char>,
    live: bool,
    mac: Option<Seq<char>>,
    machine_id: Option<Seq<char>>,
)
    ensures
        ({
            let r = branch_spec_of(s, name, dir, live, mac, machine_id);
            if live || s.backend != Some("vz"@) {
                r.mac == s.mac && r.machine_id == s.machine_id
            } else {
                r.mac == mac && r.machine_id == machine_id
            }
        }),
{
}

/// The branches are as many as were asked for, one at least; a single one has
/// the name itself, several have it with their number behind a hyphen.
pub proof fn branches_are_numbered_from_one(new_name: Seq<char>, count: u32, i: int)
    ensures
        ({
            let names = branch_names_of(new_name, count);
            &&& names.len() == (if count == 0 {
                1
            } else {
                count as nat
            })
            &&& names.len() == 1 ==> names[0] == new_name
            &&& names.len() > 1 && 0 <= i < names.len() ==> ({
                let k = new_name.len() as int;
                &&& names[i].take(k) == new_name
                &&& names[i][k] == '-'
                &&& crate::text::parse_dec(names[i].skip(k + 1), u64::MAX as nat) == Some(
                    (i + 1) as nat,
                )
            })
        }),
{
    let names = branch_names_of(new_name, count);
    if names.len() > 1 && 0 <= i < names.len() {
        reveal_strlit("-");
        let k = new_name.len() as int;
        let d = crate::text::decimal((i + 1) as nat);
        crate::text::decimal_reads_back((i + 1) as nat);
        assert(names[i] == new_name + "-"@ + d);
        assert(names[i].take(k) =~= new_name);
        assert(names[i].skip(k + 1) =~= d);
    }
}

/// Machine state can be saved of a vz vessel on macOS, and of any other where
/// the host has that of krun.
pub proof fn memory_can_be_saved_by_the_backend(host: HostKind)
    ensures
        memory_capable(true, host) == host.macos,
        memory_capable(false, host) == host.krun_state,
{
}

/// Every snapshot is listed, with its memory just where it has its memory.
pub proof fn every_snapshot_is_listed(labels: Seq<Seq<char>>, memory: Seq<bool>, k: int)
    requires
        0 <= k < labels.len(),
        labels.len() <= memory.len(),
    ensures
        infos_of(labels, memory).contains(InfoView { label: labels[k], memory: memory[k] }),
        infos_of(labels, memory).len() == labels.len(),
    decreases labels.len(),
{
    let n = labels.len() - 1;
    let short = labels.drop_last();
    let x = InfoView { label: labels[n], memory: memory[n] };
    let y = InfoView { label: labels[k], memory: memory[k] };
    if n > 0 {
        every_snapshot_is_listed(
            short,
            memory,
            if k < n {
                k
            } else {
                0
            },
        );
    }
    if k < n {
        assert(short[k] == labels[k]);
    }
    lemma_among_all(x, infos_of(short, memory), y);
}

proof fn lemma_among_all(x: InfoView, s: Seq<InfoView>, y: InfoView)
    ensures
        among(x, s).contains(x),
        among(x, s).len() == s.len() + 1,
        s.contains(y) ==> among(x, s).contains(y),
    decreases s.len(),
{
    let r = among(x, s);
    if s.len() == 0 || crate::vessels::lex_le(x.label, s[0].label) {
        assert(r[0] == x);
        if s.contains(y) {
            let i = choose|i: int| 0 <= i < s.len() && s[i] == y;
            assert(r[i + 1] == y);
        }
    } else {
        let t = s.skip(1);
        lemma_among_all(x, t, y);
        let i = choose|i: int| 0 <= i < among(x, t).len() && among(x, t)[i] == x;
        assert(r[i + 1] == x);
        if s.contains(y) {
            let j = choose|j: int| 0 <= j < s.len() && s[j] == y;
            if j == 0 {
                assert(r[0] == y);
            } else {
                assert(t[j - 1] == y);
                let i = choose|i: int| 0 <= i < among(x, t).len() && among(x, t)[i] == y;
                assert(r[i + 1] == y);
            }
        }
    }
}

/// Memory is saved of a running vessel whose backend can save it, unless disks
/// are asked for; where memory is asked for, disks alone are never an answer.
pub proof fn what_a_snapshot_captures(
    name: Seq<char>,
    backend: Option<Seq<char>>,
    mode: SnapMode,
    running: bool,
    host: HostKind,
    r: Result<(bool, DiskOnlyReason), VesselError>,
)
    requires
        mode_decided(name, backend, mode, running, host, r),
    ensures
        r matches Ok((memory, _)) ==> (memory <==> running && mode != SnapMode::DiskOnly && (
        if backend == Some("vz"@) {
            host.macos
        } else {
            host.krun_state
        })),
        mode == SnapMode::Memory ==> (r matches Ok((memory, _)) ==> memory),
        r is Err <==> mode == SnapMode::Memory && !(running && (if backend == Some("vz"@) {
            host.macos
        } else {
            host.krun_state
        })),
        r matches Ok((memory, reason)) ==> !memory ==> (reason == DiskOnlyReason::Requested <==> mode
            == SnapMode::DiskOnly) && (reason == DiskOnlyReason::NotRunning ==> !running),
{
}

/// A snapshot is taken of a vessel that is there, under a label that is free,
/// in the vessel's own directory; one that is there is found there again.
pub proof fn where_a_snapshot_goes(
    home: Seq<char>,
    name: Seq<char>,
    label: Seq<char>,
    there: bool,
    taken: bool,
    made: Result<SnapDirs, VesselError>,
    found: Result<SnapDirs, VesselError>,
)
    requires
        request_problem(name, label) is None,
        snapshot_allowed(home, name, label, there, taken, made),
        snapshot_found(home, name, label, taken, found),
    ensures
        made is Ok <==> there && !taken,
        found is Ok <==> taken,
        made matches Ok(d) ==> d.dir@ == vessel_dir(home, name),
        made matches Err(e) ==> (there ==> e@ == (VesselErrorView::SnapshotExists { label })) && (
        !there ==> e@ == (VesselErrorView::NoVessel { name })),
        found matches Err(e) ==> e@ == (VesselErrorView::NoSnapshot { name, label }),
        forall|other: Result<SnapDirs, VesselError>|
            #![trigger snapshot_found(home, name, label, true, other)]
            snapshot_found(home, name, label, true, other) && made is Ok ==> other is Ok
                && other->Ok_0.sdir@ == made->Ok_0.sdir@ && other->Ok_0.dir@ == made->Ok_0.dir@,
{
}

/// The machine state is found where it was saved, by either backend; a snapshot
/// of disks carries none.
pub proof fn a_saved_state_is_found(sdir: Seq<char>, krun_dir: bool)
    ensures
        state_found(sdir, true, krun_dir) == Some(state_at(sdir, true)),
        state_found(sdir, false, true) == Some(state_at(sdir, false)),
        state_found(sdir, false, false) is None,
        state_at(sdir, true) == joined_path(sdir, "memory.vzstate"@),
        state_at(sdir, false) == joined_path(sdir, "memory.krun"@),
{
}

/// What is told of a snapshot is what was decided of it.
pub proof fn what_a_snapshot_turned_out_to_be(
    memory: bool,
    reason: DiskOnlyReason,
    ms: u64,
    state_mb: u64,
)
    ensures
        outcome_of(memory, reason, ms, state_mb) is Memory <==> memory,
        outcome_of(memory, reason, ms, state_mb) matches SnapshotOutcome::DiskOnly {
            ms: m,
            reason: why,
        } ==> why == reason && m == ms,
        outcome_of(memory, reason, ms, state_mb) matches SnapshotOutcome::Memory {
            ms: m,
            state_mb: mb,
        } ==> m == ms && mb == state_mb,
{
}

} // verus!

//! One exit path, and a reason on every one of them.

use crate::backend::VmState;
use crate::text::{cat2, lines, owned};
use vstd::prelude::*;

verus! {

/// Why the daemon is stopping.
#[derive(Debug, Clone)]
pub enum Reason {
    /// `nebula down` over the control socket.
    Down { force: bool },
    Signal(i32),
    /// The watchdog saw the engine VM stop on its own.
    VesselDied(String),
    /// Failed before it ever served.
    StartupError(String),
    /// Failed while serving.
    Fatal(String),
    /// The control-socket listener ended without a `down`.
    ListenerClosed,
}

/// `libc::SIGTERM`: 15 on every unix.
#[verifier::external_body]
fn sigterm() -> (n: i32)
    ensures
        n == 15,
{
    libc::SIGTERM
}

/// `libc::SIGINT`: 2 on every unix.
#[verifier::external_body]
fn sigint() -> (n: i32)
    ensures
        n == 2,
{
    libc::SIGINT
}

/// `libc::SIGHUP`: 1 on every unix.
#[verifier::external_body]
fn sighup() -> (n: i32)
    ensures
        n == 1,
{
    libc::SIGHUP
}

/// The name of a signal that the daemon catches.
pub open spec fn signal_text(sig: i32) -> Seq<char> {
    if sig == 15 {
        "SIGTERM"@
    } else if sig == 2 {
        "SIGINT"@
    } else if sig == 1 {
        "SIGHUP"@
    } else {
        "signal"@
    }
}

pub fn signal_name(sig: i32) -> (s: &'static str)
    ensures
        s@ == signal_text(sig),
{
    if sig == sigterm() {
        "SIGTERM"
    } else if sig == sigint() {
        "SIGINT"
    } else if sig == sighup() {
        "SIGHUP"
    } else {
        "signal"
    }
}

/// The first line of a text.
pub open spec fn first_line(s: Seq<char>) -> Seq<char> {
    let ls = crate::text::lines_of(s);
    if ls.len() > 0 {
        ls[0]
    } else {
        s
    }
}

impl Reason {
    pub open spec fn label_text(self) -> Seq<char> {
        match self {
            Reason::Down { .. } => "down"@,
            Reason::Signal(_) => "signal"@,
            Reason::VesselDied(_) => "vessel-died"@,
            Reason::StartupError(_) => "startup-error"@,
            Reason::Fatal(_) => "fatal"@,
            Reason::ListenerClosed => "listener-closed"@,
        }
    }

    /// Stable and greppable.
    pub fn label(&self) -> (s: &'static str)
        ensures
            s@ == self.label_text(),
    {
        match self {
            Reason::Down { .. } => "down",
            Reason::Signal(_) => "signal",
            Reason::VesselDied(_) => "vessel-died",
            Reason::StartupError(_) => "startup-error",
            Reason::Fatal(_) => "fatal",
            Reason::ListenerClosed => "listener-closed",
        }
    }

    pub open spec fn detail_text(self) -> Option<Seq<char>> {
        match self {
            Reason::Down { force } => Some(
                if force {
                    "force=true"@
                } else {
                    "force=false"@
                },
            ),
            Reason::Signal(sig) => Some(signal_text(sig)),
            Reason::VesselDied(state) => Some("vm state "@ + state@),
            Reason::StartupError(e) => Some(first_line(e@)),
            Reason::Fatal(e) => Some(first_line(e@)),
            Reason::ListenerClosed => None,
        }
    }

    /// What is known beyond the label. Of an error only the first line: the
    /// rest can be several paragraphs of guidance.
    pub fn detail(&self) -> (r: Option<String>)
        ensures
            crate::text::opt_view(r) == self.detail_text(),
    {
        match self {
            Reason::Down { force } => Some(
                owned(
                    if *force {
                        "force=true"
                    } else {
                        "force=false"
                    },
                ),
            ),
            Reason::Signal(sig) => Some(owned(signal_name(*sig))),
            Reason::VesselDied(state) => Some(cat2("vm state ", state.as_str())),
            Reason::StartupError(e) => Some(head_line(e.as_str())),
            Reason::Fatal(e) => Some(head_line(e.as_str())),
            Reason::ListenerClosed => None,
        }
    }

    /// The exit code.
    pub open spec fn code(self) -> i32 {
        match self {
            Reason::VesselDied(_) => 70i32,
            Reason::StartupError(_) => 1i32,
            Reason::Fatal(_) => 1i32,
            _ => 0i32,
        }
    }

    /// Only failures exit non-zero; a dead vessel asks to be restarted.
    pub fn exit_code(&self) -> (n: i32)
        ensures
            n == self.code(),
    {
        match self {
            Reason::VesselDied(_) => 70,
            Reason::StartupError(_) => 1,
            Reason::Fatal(_) => 1,
            _ => 0,
        }
    }

    /// How the engine is stopped on the way out.
    pub open spec fn stops(self, state: Option<VmState>) -> Option<bool> {
        match state {
            None => None::<bool>,
            Some(VmState::Stopped) => None::<bool>,
            Some(_) => Some(self is Down && self->force),
        }
    }

    /// How to stop the engine on the way out: not at all where there is none
    /// or it has stopped; by force only where that was asked for.
    pub fn stop_vessel(&self, state: Option<VmState>) -> (r: Option<bool>)
        ensures
            r == self.stops(state),
    {
        match state {
            None => None,
            Some(VmState::Stopped) => None,
            Some(_) => match self {
                Reason::Down { force } => Some(*force),
                _ => Some(false),
            },
        }
    }
}

fn head_line(s: &str) -> (r: String)
    ensures
        r@ == first_line(s@),
{
    let ls: Vec<String> = lines(s);
    let ghost lv = crate::text::views(ls@);
    if ls.len() > 0 {
        assert(lv[0] == ls@[0]@);
        owned(ls[0].as_str())
    } else {
        owned(s)
    }
}

/// Whether the watchdog gives up on the engine: it failed, or stopped on its
/// own.
pub fn vessel_died(shutting_down: bool, state: VmState) -> (r: bool)
    ensures
        r == (!shutting_down && (state == VmState::Failed || state == VmState::Stopped)),
{
    !shutting_down && (state == VmState::Failed || state == VmState::Stopped)
}

/// How far the daemon is.
#[derive(Debug, Clone, Copy, PartialEq, Eq, Structural)]
pub struct Life {
    /// Its paths are known.
    pub started: bool,
    /// Its control socket listens.
    pub serving: bool,
    /// A shutdown is under way.
    pub finishing: bool,
}

/// How a shutdown goes.
#[derive(Debug, Clone, Copy, PartialEq, Eq, Structural)]
pub enum Finish {
    /// There is nothing to clean up.
    JustExit { code: i32 },
    /// Another one is under way: leave it twenty seconds, then exit anyway.
    AfterTheOther { wait_s: u64, code: i32 },
    /// Stop the VM where it runs, by force or not, record the exit, remove the
    /// pid file and the socket.
    CleanUp { stop: Option<bool>, code: i32 },
}

impl Life {
    pub fn new() -> (l: Life)
        ensures
            l == (Life { started: false, serving: false, finishing: false }),
    {
        Life { started: false, serving: false, finishing: false }
    }

    /// The paths are known; from here on an exit leaves a record.
    pub fn init(&mut self)
        ensures
            *final(self) == (Life { started: true, ..*old(self) }),
    {
        self.started = true;
    }

    /// The control socket listens: what fails from here on did not fail to
    /// start.
    pub fn mark_serving(&mut self)
        ensures
            *final(self) == (Life { serving: true, ..*old(self) }),
    {
        self.serving = true;
    }

    pub fn is_serving(&self) -> (r: bool)
        ensures
            r == self.serving,
    {
        self.serving
    }

    /// Shut down, once: a second call waits for the first.
    pub fn finish(&mut self, reason: &Reason, state: Option<VmState>) -> (f: Finish)
        ensures
            *final(self) == after_finish(*old(self)),
            f == finish_of(*old(self), *reason, state),
    {
        let code: i32 = reason.exit_code();
        if !self.started {
            return Finish::JustExit { code };
        }
        if self.finishing {
            return Finish::AfterTheOther { wait_s: 20, code };
        }
        self.finishing = true;
        Finish::CleanUp { stop: reason.stop_vessel(state), code }
    }
}

/// What a shutdown comes to.
pub open spec fn finish_of(l: Life, reason: Reason, state: Option<VmState>) -> Finish {
    if !l.started {
        Finish::JustExit { code: reason.code() }
    } else if l.finishing {
        Finish::AfterTheOther { wait_s: 20, code: reason.code() }
    } else {
        Finish::CleanUp { stop: reason.stops(state), code: reason.code() }
    }
}

/// The daemon after a shutdown was asked for.
pub open spec fn after_finish(l: Life) -> Life {
    if l.started {
        Life { finishing: true, ..l }
    } else {
        l
    }
}

/// Of two shutdowns the second one never cleans up, whatever their reasons
/// are.
pub proof fn one_cleanup(l: Life, second: Reason, state: Option<VmState>)
    ensures
        !(finish_of(after_finish(l), second, state) is CleanUp),
{
}

/// Only a failure exits with a code: 70 for an engine that died, so that it is
/// started again, and 1 for everything else that went wrong.
pub proof fn what_an_exit_says(r: Reason)
    ensures
        r is VesselDied ==> r.code() == 70,
        r is StartupError || r is Fatal ==> r.code() == 1,
        r is Down || r is Signal || r is ListenerClosed ==> r.code() == 0,
{
}

/// An engine that runs is stopped on every way out, and by force only on a
/// `down` that asks for it; one that has stopped is left alone.
pub proof fn how_the_engine_is_stopped(r: Reason, state: Option<VmState>)
    ensures
        r.stops(state) is None <==> (state is None || state == Some(VmState::Stopped)),
        r.stops(state) == Some(true) <==> (state is Some && state != Some(VmState::Stopped)
            && r is Down && r->force),
{
}

/// The first shutdown of a daemon that has started cleans up, with the code of
/// its reason; before that there is nothing to clean up, and after it every
/// other waits.
pub proof fn a_shutdown_cleans_up(l: Life, first: Reason, second: Reason, state: Option<VmState>)
    ensures
        !l.started ==> finish_of(l, first, state) == (Finish::JustExit { code: first.code() }),
        l.started && !l.finishing ==> finish_of(l, first, state) == (Finish::CleanUp {
            stop: first.stops(state),
            code: first.code(),
        }),
        l.started ==> finish_of(after_finish(l), second, state) == (Finish::AfterTheOther {
            wait_s: 20,
            code: second.code(),
        }),
        after_finish(l).started == l.started && after_finish(l).serving == l.serving,
{
}

/// Of an error that goes on for several lines the first one is told.
pub proof fn the_first_line_is_told(line: Seq<char>, rest: Seq<char>)
    requires
        !line.contains('\n'),
        line.len() > 0,
        line.last() != '\r',
    ensures
        first_line(line) == line,
        first_line(line.push('\n') + rest) == line,
{
    crate::text::a_line_splits_off(line, rest);
}

} // verus!

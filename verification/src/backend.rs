//! What every VMM backend shares: VM states, waiting for one, and the choice
//! of a backend by name.

use crate::error::{Error, ErrorView};
use crate::spec::{SpecView, VmSpec};
use crate::text::{cat3, owned, same};
use vstd::prelude::*;

verus! {

#[derive(Debug, Clone, Copy, PartialEq, Eq, Structural)]
pub enum VmState {
    Created,
    Starting,
    Running,
    Stopping,
    Stopped,
    Failed,
}

impl VmState {
    pub open spec fn text(self) -> Seq<char> {
        match self {
            VmState::Created => "Created"@,
            VmState::Starting => "Starting"@,
            VmState::Running => "Running"@,
            VmState::Stopping => "Stopping"@,
            VmState::Stopped => "Stopped"@,
            VmState::Failed => "Failed"@,
        }
    }

    /// The state's name.
    pub fn name(&self) -> (s: &'static str)
        ensures
            s@ == self.text(),
    {
        match self {
            VmState::Created => "Created",
            VmState::Starting => "Starting",
            VmState::Running => "Running",
            VmState::Stopping => "Stopping",
            VmState::Stopped => "Stopped",
            VmState::Failed => "Failed",
        }
    }
}

/// How long to sleep between two looks at a VM's state.
pub const WAIT_POLL_MS: u64 = 20;

/// What to do after a look at the state of a VM that should reach another.
#[derive(Debug)]
pub enum WaitStep {
    /// The state is reached.
    Reached,
    /// Give up with this error.
    Fail(Error),
    /// Sleep for `WAIT_POLL_MS` and look again.
    Again,
}

/// What a look of the wait comes to.
pub open spec fn waited(
    state: VmState,
    target: VmState,
    elapsed_ms: u64,
    timeout_ms: u64,
    step: WaitStep,
) -> bool {
    &&& step is Reached == (state == target)
    &&& match step {
        WaitStep::Fail(e) => state != target && if state == VmState::Failed {
            e@ == (ErrorView::Backend { backend: "vm"@, message: "VM entered Failed state"@ })
        } else {
            elapsed_ms >= timeout_ms && e@ == (ErrorView::Timeout {
                expected: target,
                actual: state,
                timeout_secs: timeout_ms / 1000,
            })
        },
        _ => true,
    }
    &&& step is Again == (state != target && state != VmState::Failed && elapsed_ms < timeout_ms)
}

/// One look of the wait for `target`: `elapsed_ms` have passed of the time
/// allowed. The wait ends at the target, in failure, or out of time.
pub fn wait_for(state: VmState, target: VmState, elapsed_ms: u64, timeout_ms: u64) -> (step: WaitStep)
    ensures
        waited(state, target, elapsed_ms, timeout_ms, step),
{
    if state == target {
        return WaitStep::Reached;
    }
    if state == VmState::Failed {
        return WaitStep::Fail(Error::backend("vm", "VM entered Failed state"));
    }
    if elapsed_ms >= timeout_ms {
        return WaitStep::Fail(
            Error::Timeout { expected: target, actual: state, timeout_secs: timeout_ms / 1000 },
        );
    }
    WaitStep::Again
}

/// The backends.
#[derive(Debug, Clone, Copy, PartialEq, Eq, Structural)]
pub enum BackendKind {
    /// Virtualization.framework.
    Vz,
    /// libkrun.
    Krun,
}

/// Which backends a build holds.
#[derive(Debug, Clone, Copy, PartialEq, Eq, Structural)]
pub struct Compiled {
    pub vz: bool,
    pub krun: bool,
}

/// Look a backend up by name.
pub fn backend_by_name(name: &str, compiled: Compiled) -> (r: Result<BackendKind, Error>)
    ensures
        match r {
            Ok(BackendKind::Vz) => name@ == "vz"@ && compiled.vz,
            Ok(BackendKind::Krun) => name@ == "krun"@ && compiled.krun && !(name@ == "vz"@
                && compiled.vz),
            Err(e) => !(name@ == "vz"@ && compiled.vz) && !(name@ == "krun"@ && compiled.krun)
                && e@ == ErrorView::BackendUnavailable(
                "unknown"@,
                "no backend named `"@ + name@ + "` compiled into this build"@,
            ),
        },
{
    if compiled.vz && same(name, "vz") {
        return Ok(BackendKind::Vz);
    }
    if compiled.krun && same(name, "krun") {
        return Ok(BackendKind::Krun);
    }
    Err(
        Error::BackendUnavailable(
            owned("unknown"),
            cat3("no backend named `", name, "` compiled into this build"),
        ),
    )
}

/// What a description asks for that a backend does not have: the Venus GPU is
/// libkrun's, the Rosetta share that of Virtualization.framework.
pub open spec fn unsupported(kind: BackendKind, s: SpecView) -> Option<ErrorView> {
    if kind == BackendKind::Vz && s.gpu {
        Some(ErrorView::Backend { backend: "vz"@, message: "a Venus GPU needs libkrun"@ })
    } else if kind == BackendKind::Krun && s.rosetta {
        Some(
            ErrorView::Backend {
                backend: "krun"@,
                message: "the Rosetta share needs Virtualization.framework"@,
            },
        )
    } else {
        None
    }
}

/// Refuse a description that the backend cannot serve, before a machine is
/// created.
pub fn check_supported(kind: BackendKind, spec: &VmSpec) -> (r: Result<(), Error>)
    ensures
        match r {
            Ok(_) => unsupported(kind, spec@) is None,
            Err(e) => unsupported(kind, spec@) == Some(e@),
        },
{
    if kind == BackendKind::Vz && spec.gpu {
        return Err(Error::backend("vz", "a Venus GPU needs libkrun"));
    }
    if kind == BackendKind::Krun && spec.rosetta {
        return Err(
            Error::backend("krun", "the Rosetta share needs Virtualization.framework"),
        );
    }
    Ok(())
}

/// A request to a VM worker's control socket.
#[derive(Debug)]
pub enum WorkerControl {
    Pause,
    Resume,
    Save { path: String },
    State,
}

/// A worker's answer.
#[derive(Debug)]
pub struct WorkerReply {
    pub ok: bool,
    pub error: Option<String>,
    pub state: Option<String>,
}

/// The wait ends where the state is reached, at once where the VM failed, and
/// otherwise when the time is over; before that it goes on.
pub proof fn when_a_wait_ends(
    state: VmState,
    target: VmState,
    elapsed_ms: u64,
    timeout_ms: u64,
    step: WaitStep,
)
    requires
        waited(state, target, elapsed_ms, timeout_ms, step),
    ensures
        step is Reached <==> state == target,
        state != target && state == VmState::Failed ==> step is Fail,
        state != target && elapsed_ms >= timeout_ms ==> step is Fail,
        step is Again ==> elapsed_ms < timeout_ms && state != VmState::Failed,
        step matches WaitStep::Fail(e) ==> (e@ is Timeout <==> state != VmState::Failed),
{
}

} // verus!

//! Virtualization.framework backend: what a VM's configuration holds, and what
//! the framework's states mean.

use crate::backend::VmState;
use crate::error::{Error, ErrorView};
use crate::spec::{
    disk_views, share_views, BootSpec, ConsoleSpec, DiskSpec, DiskView, NetSpec, ShareSpec,
    ShareView, SpecView, VmSpec,
};
use crate::text::{opt_owned, owned};
use vstd::prelude::*;

verus! {

/// A directory shared into the guest.
#[derive(Debug)]
pub enum VzShare {
    /// Apple's Rosetta runtime, under the tag `rosetta`.
    Rosetta,
    Dir { tag: String, path: String, read_only: bool },
}

pub enum VzShareView {
    Rosetta,
    Dir { tag: Seq<char>, path: Seq<char>, read_only: bool },
}

impl View for VzShare {
    type V = VzShareView;

    open spec fn view(&self) -> VzShareView {
        match self {
            VzShare::Rosetta => VzShareView::Rosetta,
            VzShare::Dir { tag, path, read_only } => VzShareView::Dir {
                tag: tag@,
                path: path@,
                read_only: *read_only,
            },
        }
    }
}

pub open spec fn vz_share_views(v: Seq<VzShare>) -> Seq<VzShareView> {
    v.map_values(|s: VzShare| s@)
}

/// The configuration of a VM.
#[derive(Debug)]
pub struct VzConfig {
    pub cpus: u32,
    pub memory_bytes: u64,
    pub kernel: String,
    pub initramfs: Option<String>,
    pub cmdline: String,
    /// A file for the console, created afresh.
    pub console: Option<String>,
    pub disks: Vec<DiskSpec>,
    pub shares: Vec<VzShare>,
    pub nat: bool,
    pub vsock: bool,
    pub balloon: bool,
    pub rng: bool,
}

/// Rosetta first, where it is asked for and installed; then the directories.
/// Without it amd64 support degrades, the VM still works.
pub open spec fn vz_shares_of(s: SpecView, rosetta_installed: bool) -> Seq<VzShareView> {
    (if s.rosetta && rosetta_installed {
        seq![VzShareView::Rosetta]
    } else {
        Seq::empty()
    }) + s.shares.map_values(
        |d: ShareView| VzShareView::Dir { tag: d.tag, path: d.host_path, read_only: d.read_only },
    )
}

fn copy_disks(disks: &Vec<DiskSpec>) -> (r: Vec<DiskSpec>)
    ensures
        disk_views(r@) == disk_views(disks@),
{
    let ghost all = disk_views(disks@);
    let mut r: Vec<DiskSpec> = Vec::new();
    let mut i: usize = 0;
    assert(disk_views(r@) =~= all.take(0));
    while i < disks.len()
        invariant
            i <= disks@.len(),
            all == disk_views(disks@),
            r@.len() == i,
            disk_views(r@) == all.take(i as int),
        decreases disks@.len() - i,
    {
        let ghost now = disk_views(r@);
        r.push(DiskSpec { path: owned(disks[i].path.as_str()), read_only: disks[i].read_only });
        proof {
            assert(all[i as int] == r@[i as int]@);
            assert(disk_views(r@) =~= now.push(all[i as int]));
            assert(now.push(all[i as int]) =~= all.take(i as int + 1));
        }
        i = i + 1;
    }
    assert(all.take(disks@.len() as int) =~= all);
    r
}

fn make_shares(shares: &Vec<ShareSpec>, rosetta: bool, Ghost(s): Ghost<SpecView>, installed: bool) -> (r:
    Vec<VzShare>)
    requires
        s.shares == share_views(shares@),
        rosetta == s.rosetta,
    ensures
        vz_share_views(r@) == vz_shares_of(s, installed),
{
    let ghost all = vz_shares_of(s, installed);
    let mut r: Vec<VzShare> = Vec::new();
    if rosetta && installed {
        r.push(VzShare::Rosetta);
    }
    let ghost head = r@.len();
    let mut i: usize = 0;
    assert(vz_share_views(r@) =~= all.take(head as int));
    while i < shares.len()
        invariant
            i <= shares@.len(),
            s.shares == share_views(shares@),
            all == vz_shares_of(s, installed),
            head == (if s.rosetta && installed { 1int } else { 0int }),
            vz_share_views(r@) == all.take(head + i as int),
        decreases shares@.len() - i,
    {
        let ghost now = vz_share_views(r@);
        let d = VzShare::Dir {
            tag: owned(shares[i].tag.as_str()),
            path: owned(shares[i].host_path.as_str()),
            read_only: shares[i].read_only,
        };
        let ghost dv = d@;
        r.push(d);
        proof {
            assert(s.shares[i as int] == shares@[i as int]@);
            assert(all[head + i as int] == dv);
            assert(vz_share_views(r@) =~= now.push(dv));
            assert(now.push(dv) =~= all.take(head + i as int + 1));
        }
        i = i + 1;
    }
    assert(all.take(head + shares@.len() as int) =~= all);
    r
}

/// The configuration of a description.
pub fn build_config(spec: &VmSpec, rosetta_installed: bool) -> (c: VzConfig)
    requires
        spec.mem_mib * 1048576 <= u64::MAX,
    ensures
        c.cpus == spec@.cpus,
        c.memory_bytes == spec@.mem_mib * 1048576,
        c.kernel@ == spec@.kernel,
        crate::text::opt_view(c.initramfs) == spec@.initramfs,
        c.cmdline@ == spec@.cmdline,
        crate::text::opt_view(c.console) == spec@.console,
        disk_views(c.disks@) == spec@.disks,
        vz_share_views(c.shares@) == vz_shares_of(spec@, rosetta_installed),
        c.nat == (spec@.net == NetSpec::Nat),
        c.vsock == spec@.vsock,
        c.balloon == spec@.balloon,
        c.rng == spec@.rng,
{
    let BootSpec::Kernel { kernel, initramfs, cmdline } = &spec.boot;
    VzConfig {
        cpus: spec.cpus,
        memory_bytes: spec.mem_mib * 1048576,
        kernel: owned(kernel.as_str()),
        initramfs: opt_owned(initramfs),
        cmdline: owned(cmdline.as_str()),
        console: match &spec.console {
            ConsoleSpec::File(p) => Some(owned(p.as_str())),
            ConsoleSpec::Off => None,
        },
        disks: copy_disks(&spec.disks),
        shares: make_shares(&spec.shares, spec.rosetta, Ghost(spec@), rosetta_installed),
        nat: spec.net == NetSpec::Nat,
        vsock: spec.vsock,
        balloon: spec.balloon,
        rng: spec.rng,
    }
}

/// A VM's state in the framework's words.
#[derive(Debug, Clone, Copy, PartialEq, Eq, Structural)]
pub enum VzState {
    Stopped,
    Running,
    Paused,
    Error,
    Starting,
    Pausing,
    Resuming,
    Stopping,
    /// One that was added to the framework later.
    Other,
}

/// A VM's state, from whether it was started and what the framework says.
pub open spec fn state_told(started: bool, s: VzState) -> VmState {
    if !started {
        VmState::Created
    } else {
        match s {
            VzState::Stopped => VmState::Stopped,
            VzState::Running | VzState::Paused | VzState::Pausing | VzState::Resuming => VmState::Running,
            VzState::Starting => VmState::Starting,
            VzState::Stopping => VmState::Stopping,
            VzState::Error | VzState::Other => VmState::Failed,
        }
    }
}

/// A VM's state: created until it was started; a pause is no stop.
pub fn vm_state(started: bool, s: VzState) -> (r: VmState)
    ensures
        r == state_told(started, s),
{
    if !started {
        return VmState::Created;
    }
    match s {
        VzState::Stopped => VmState::Stopped,
        VzState::Running | VzState::Paused | VzState::Pausing | VzState::Resuming => VmState::Running,
        VzState::Starting => VmState::Starting,
        VzState::Stopping => VmState::Stopping,
        VzState::Error | VzState::Other => VmState::Failed,
    }
}

/// The backend needs Apple Silicon; whether the binary may use it shows only
/// when a VM is started.
pub fn is_available(aarch64: bool) -> (r: Result<(), Error>)
    ensures
        match r {
            Ok(_) => aarch64,
            Err(e) => !aarch64 && e@ == ErrorView::BackendUnavailable(
                "vz"@,
                "requires Apple Silicon"@,
            ),
        },
{
    if aarch64 {
        Ok(())
    } else {
        Err(Error::BackendUnavailable(owned("vz"), owned("requires Apple Silicon")))
    }
}

/// The guest sees every directory of its description under its tag, read-only
/// where it is; and Rosetta just where it is asked for and installed.
pub proof fn every_share_is_seen(s: SpecView, rosetta_installed: bool, k: int)
    requires
        0 <= k < s.shares.len(),
    ensures
        vz_shares_of(s, rosetta_installed).contains(
            VzShareView::Dir {
                tag: s.shares[k].tag,
                path: s.shares[k].host_path,
                read_only: s.shares[k].read_only,
            },
        ),
        vz_shares_of(s, rosetta_installed).contains(VzShareView::Rosetta) <==> s.rosetta
            && rosetta_installed,
        vz_shares_of(s, rosetta_installed).len() == s.shares.len() + (if s.rosetta
            && rosetta_installed {
            1int
        } else {
            0
        }),
{
    let all = vz_shares_of(s, rosetta_installed);
    let n = if s.rosetta && rosetta_installed {
        1int
    } else {
        0
    };
    assert(all[n + k] == (VzShareView::Dir {
        tag: s.shares[k].tag,
        path: s.shares[k].host_path,
        read_only: s.shares[k].read_only,
    }));
    if n == 1 {
        assert(all[0] == VzShareView::Rosetta);
    }
}

/// A VM runs once it was started and until it stops: a pause is no stop. What
/// the framework calls an error, or by no known name, is a failure.
pub proof fn when_a_vm_runs(started: bool, s: VzState)
    ensures
        state_told(false, s) == VmState::Created,
        state_told(started, s) == VmState::Created ==> !started,
        state_told(started, s) == VmState::Running <==> started && (s == VzState::Running || s
            == VzState::Paused || s == VzState::Pausing || s == VzState::Resuming),
        state_told(started, s) == VmState::Failed <==> started && (s == VzState::Error || s
            == VzState::Other),
        started && s == VzState::Stopped <==> state_told(started, s) == VmState::Stopped,
        started && s == VzState::Starting <==> state_told(started, s) == VmState::Starting,
        started && s == VzState::Stopping <==> state_told(started, s) == VmState::Stopping,
{
}

} // verus!

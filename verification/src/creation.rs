//! Creating a vessel: its directory, its disks and its description.

use crate::display::VSOCK_PORT_DISPLAY;
use crate::paths::{join, joined_path};
use crate::proto::{VSOCK_PORT_CONTROL, VSOCK_PORT_SHELL};
use crate::spec::{
    disk_views, port_views, share_views, BootSpec, ConsoleSpec, DiskSpec, DiskView, NetSpec,
    PortView, ShareSpec, ShareView, SpecView, VmSpec, VsockPortMap,
};
use crate::text::{cat2, cat3, cat4, decimal_str, hex_lower, opt_owned, owned, same};
use crate::vessels::{
    dir_of, mount_views, name_problem, vessel_dir, volume_views, VesselError, VesselErrorView,
};
use vstd::prelude::*;
use vstd::string::StringExecFns;
use vstd::utf8::encode_utf8;

verus! {

/// What the user asks for.
#[derive(Debug)]
pub struct CreateOpts {
    pub name: String,
    pub cpus: u32,
    pub mem: u64,
    pub gpu: bool,
    pub data_gib: u64,
    /// `krun` or `vz`.
    pub backend: String,
    /// Extra persistent volumes: name and GiB, mounted at /mnt/name.
    pub volumes: Vec<(String, u64)>,
    /// Host directories shared into the guest at their identical absolute
    /// paths, and whether read-only.
    pub mounts: Vec<(String, bool)>,
}

/// The request as its mathematical content.
pub struct CreateView {
    pub name: Seq<char>,
    pub cpus: u32,
    pub mem: u64,
    pub gpu: bool,
    pub data_gib: u64,
    pub backend: Seq<char>,
    pub volumes: Seq<(Seq<char>, u64)>,
    pub mounts: Seq<(Seq<char>, bool)>,
}

impl View for CreateOpts {
    type V = CreateView;

    open spec fn view(&self) -> CreateView {
        CreateView {
            name: self.name@,
            cpus: self.cpus,
            mem: self.mem,
            gpu: self.gpu,
            data_gib: self.data_gib,
            backend: self.backend@,
            volumes: volume_views(self.volumes@),
            mounts: mount_views(self.mounts@),
        }
    }
}

/// Where the root file system comes from.
#[derive(Debug, Clone, Copy, PartialEq, Eq, Structural)]
pub enum Rootfs {
    /// Clone the installed base image; sparse data disk, formatted by the guest.
    BaseImage,
    /// The caller has placed rootfs.img, and possibly data.img, already.
    Prepared,
}

/// What was found on the host.
#[derive(Debug)]
pub struct CreateFacts {
    pub macos: bool,
    /// The guest kernel is installed.
    pub kernel: bool,
    /// The untouched root image is there.
    pub pristine: bool,
    /// The engine's live root disk is there.
    pub live_rootfs: bool,
    /// rootfs.img stands in the vessel's directory.
    pub own_rootfs: bool,
    /// data.img stands in the vessel's directory.
    pub own_data: bool,
    /// A fresh MAC address and machine id, for backends that want them.
    pub mac: Option<String>,
    pub machine_id: Option<String>,
}

/// One thing to do to the host's file system.
#[derive(Debug)]
pub enum FsStep {
    /// Create a directory and those above it.
    MakeDirs(String),
    /// Clone a file, sharing its extents where the file system can.
    Clone { from: String, to: String },
    /// Create an empty file of that length, all hole.
    Sparse { path: String, len: u64 },
}

pub enum StepView {
    MakeDirs(Seq<char>),
    Clone { from: Seq<char>, to: Seq<char> },
    Sparse { path: Seq<char>, len: u64 },
}

impl View for FsStep {
    type V = StepView;

    open spec fn view(&self) -> StepView {
        match self {
            FsStep::MakeDirs(p) => StepView::MakeDirs(p@),
            FsStep::Clone { from, to } => StepView::Clone { from: from@, to: to@ },
            FsStep::Sparse { path, len } => StepView::Sparse { path: path@, len: *len },
        }
    }
}

pub open spec fn step_views(v: Seq<FsStep>) -> Seq<StepView> {
    v.map_values(|s: FsStep| s@)
}

/// What creating a vessel amounts to: what to do, in order, and then the
/// description to write to spec.json in the vessel's directory; or the error
/// that ends it after what is to be done was done.
#[derive(Debug)]
pub struct CreatePlan {
    pub steps: Vec<FsStep>,
    pub result: Result<Created, VesselError>,
}

#[derive(Debug)]
pub struct Created {
    pub dir: String,
    pub spec: VmSpec,
}

/// A gibibyte.
pub const GIB: u64 = 1073741824;

pub open spec fn kernel_path(home: Seq<char>) -> Seq<char> {
    joined_path(home, "kernel/Image"@)
}

pub open spec fn pristine_path(home: Seq<char>) -> Seq<char> {
    joined_path(home, "images/rootfs-pristine.img"@)
}

pub open spec fn live_path(home: Seq<char>) -> Seq<char> {
    joined_path(home, "disks/rootfs.img"@)
}

pub open spec fn volume_path(dir: Seq<char>, name: Seq<char>) -> Seq<char> {
    joined_path(dir, "vol-"@ + name + ".img"@)
}

/// What is refused before anything is touched.
pub open spec fn refusal(o: CreateView, f: CreateFacts) -> Option<VesselErrorView> {
    if o.backend != "krun"@ && o.backend != "vz"@ {
        Some(VesselErrorView::BadBackend { backend: o.backend })
    } else if o.backend == "vz"@ && !f.macos {
        Some(VesselErrorView::VzElsewhere)
    } else if o.gpu && o.backend == "vz"@ {
        Some(VesselErrorView::VzGpu)
    } else if name_problem(o.name) is Some {
        name_problem(o.name)
    } else if !f.kernel {
        Some(VesselErrorView::NoKernel)
    } else {
        None
    }
}

/// What is missing once the directory is there.
pub open spec fn lack(o: CreateView, rootfs: Rootfs, home: Seq<char>, f: CreateFacts) -> Option<
    VesselErrorView,
> {
    match rootfs {
        Rootfs::BaseImage => if !f.pristine && !f.live_rootfs {
            Some(VesselErrorView::NoImages)
        } else {
            None
        },
        Rootfs::Prepared => if !f.own_rootfs {
            Some(VesselErrorView::NotPrepared { dir: vessel_dir(home, o.name) })
        } else {
            None
        },
    }
}

/// The sparse files of the extra volumes.
pub open spec fn volume_steps(dir: Seq<char>, volumes: Seq<(Seq<char>, u64)>) -> Seq<StepView> {
    volumes.map_values(
        |v: (Seq<char>, u64)|
            StepView::Sparse { path: volume_path(dir, v.0), len: (v.1 * GIB) as u64 },
    )
}

/// The disks before the extra volumes.
pub open spec fn base_steps(o: CreateView, rootfs: Rootfs, home: Seq<char>, f: CreateFacts) -> Seq<
    StepView,
> {
    let dir = vessel_dir(home, o.name);
    let data = StepView::Sparse {
        path: joined_path(dir, "data.img"@),
        len: (o.data_gib * GIB) as u64,
    };
    match rootfs {
        Rootfs::BaseImage => seq![
            StepView::Clone {
                from: if f.pristine {
                    pristine_path(home)
                } else {
                    live_path(home)
                },
                to: joined_path(dir, "rootfs.img"@),
            },
            data,
        ],
        Rootfs::Prepared => if f.own_data {
            Seq::empty()
        } else {
            seq![data]
        },
    }
}

/// Everything that is to be done.
pub open spec fn create_steps(
    o: CreateView,
    rootfs: Rootfs,
    home: Seq<char>,
    f: CreateFacts,
) -> Seq<StepView> {
    let dir = vessel_dir(home, o.name);
    if refusal(o, f) is Some {
        Seq::empty()
    } else if lack(o, rootfs, home, f) is Some {
        seq![StepView::MakeDirs(dir)]
    } else {
        seq![StepView::MakeDirs(dir)] + base_steps(o, rootfs, home, f) + volume_steps(
            dir,
            o.volumes,
        )
    }
}

/// The shares of the mounts, tagged by their number.
pub open spec fn shares_of(mounts: Seq<(Seq<char>, bool)>) -> Seq<ShareView> {
    mounts.map(
        |n: int, m: (Seq<char>, bool)|
            ShareView {
                tag: "mount"@ + crate::text::decimal(n as nat),
                host_path: m.0,
                read_only: m.1,
            },
    )
}

/// A share on the kernel command line: tag, path in hexadecimal, read-only.
pub open spec fn share_arg(s: ShareView) -> Seq<char> {
    s.tag + "="@ + crate::text::hex_of(encode_utf8(s.host_path)) + (if s.read_only {
        ":ro"@
    } else {
        ""@
    })
}

pub open spec fn share_args(shares: Seq<ShareView>) -> Seq<Seq<char>> {
    shares.map_values(|s: ShareView| share_arg(s))
}

pub open spec fn volume_names(volumes: Seq<(Seq<char>, u64)>) -> Seq<Seq<char>> {
    volumes.map_values(|v: (Seq<char>, u64)| v.0)
}

pub open spec fn base_cmdline() -> Seq<char> {
    "console=hvc0 root=/dev/vda rw rootfstype=ext4 init=/sbin/nebula-init reboot=k panic=10 NEBULA_AGENT_ONLY=1"@
}

/// The kernel command line: the volumes by name and the shares by tag, each
/// only where there are any.
pub open spec fn cmdline_of(o: CreateView) -> Seq<char> {
    base_cmdline() + (if o.volumes.len() == 0 {
        ""@
    } else {
        " NEBULA_VOLUMES="@ + crate::text::joined(volume_names(o.volumes), ","@)
    }) + (if o.mounts.len() == 0 {
        ""@
    } else {
        " NEBULA_SHARES="@ + crate::text::joined(share_args(shares_of(o.mounts)), ","@)
    })
}

/// Root, data, then the volumes in their order.
pub open spec fn disks_of(dir: Seq<char>, volumes: Seq<(Seq<char>, u64)>) -> Seq<DiskView> {
    seq![
        DiskView { path: joined_path(dir, "rootfs.img"@), read_only: false },
        DiskView { path: joined_path(dir, "data.img"@), read_only: false },
    ] + volumes.map_values(
        |v: (Seq<char>, u64)| DiskView { path: volume_path(dir, v.0), read_only: false },
    )
}

/// The control, shell and display channels.
pub open spec fn ports_of(dir: Seq<char>) -> Seq<PortView> {
    seq![
        PortView { port: VSOCK_PORT_CONTROL, host_path: joined_path(dir, "agent.sock"@) },
        PortView { port: VSOCK_PORT_SHELL, host_path: joined_path(dir, "shell.sock"@) },
        PortView { port: VSOCK_PORT_DISPLAY, host_path: joined_path(dir, "display.sock"@) },
    ]
}

/// The vessel's description.
pub open spec fn spec_of(o: CreateView, home: Seq<char>, f: CreateFacts) -> SpecView {
    let dir = vessel_dir(home, o.name);
    let vz = o.backend == "vz"@;
    SpecView {
        name: "vessel-"@ + o.name,
        cpus: o.cpus,
        mem_mib: if o.mem < 1024 {
            1024
        } else {
            o.mem
        },
        kernel: kernel_path(home),
        initramfs: None,
        cmdline: cmdline_of(o),
        disks: disks_of(dir, o.volumes),
        shares: shares_of(o.mounts),
        net: NetSpec::Nat,
        vsock: vz,
        console: Some(joined_path(dir, "console.log"@)),
        balloon: false,
        rng: true,
        rosetta: false,
        gpu: o.gpu,
        control_path: Some(joined_path(dir, "vmm.sock"@)),
        restore_path: None,
        vsock_ports: ports_of(dir),
        backend: Some(o.backend),
        mac: if vz {
            crate::text::opt_view(f.mac)
        } else {
            None
        },
        machine_id: if vz {
            crate::text::opt_view(f.machine_id)
        } else {
            None
        },
    }
}

fn push_volume_steps(steps: &mut Vec<FsStep>, dir: &str, volumes: &Vec<(String, u64)>)
    requires
        forall|i: int| 0 <= i < volumes@.len() ==> (#[trigger] volumes@[i]).1 * GIB <= u64::MAX,
    ensures
        step_views(final(steps)@) == step_views(old(steps)@) + volume_steps(
            dir@,
            volume_views(volumes@),
        ),
{
    let ghost before = step_views(steps@);
    let ghost all = volume_steps(dir@, volume_views(volumes@));
    let mut i: usize = 0;
    assert(step_views(steps@) =~= before + all.take(0));
    while i < volumes.len()
        invariant
            i <= volumes@.len(),
            all == volume_steps(dir@, volume_views(volumes@)),
            step_views(steps@) == before + all.take(i as int),
            forall|k: int|
                0 <= k < volumes@.len() ==> (#[trigger] volumes@[k]).1 * GIB <= u64::MAX,
        decreases volumes@.len() - i,
    {
        let ghost now = step_views(steps@);
        assert(volumes@[i as int].1 * GIB <= u64::MAX);
        let file: String = cat3("vol-", volumes[i].0.as_str(), ".img");
        let path: String = join(dir, file.as_str());
        steps.push(FsStep::Sparse { path, len: volumes[i].1 * GIB });
        proof {
            assert(all[i as int] == steps@[steps@.len() - 1]@);
            assert(step_views(steps@) =~= now.push(all[i as int]));
            assert(now.push(all[i as int]) =~= before + all.take(i as int + 1));
        }
        i = i + 1;
    }
    assert(all.take(volumes@.len() as int) =~= all);
}

fn make_disks(dir: &str, volumes: &Vec<(String, u64)>) -> (disks: Vec<DiskSpec>)
    ensures
        disk_views(disks@) == disks_of(dir@, volume_views(volumes@)),
{
    let ghost all = disks_of(dir@, volume_views(volumes@));
    let mut disks: Vec<DiskSpec> = vec![
        DiskSpec { path: join(dir, "rootfs.img"), read_only: false },
        DiskSpec { path: join(dir, "data.img"), read_only: false },
    ];
    let mut i: usize = 0;
    assert(disk_views(disks@) =~= all.take(2));
    while i < volumes.len()
        invariant
            i <= volumes@.len(),
            all == disks_of(dir@, volume_views(volumes@)),
            disk_views(disks@) == all.take(2 + i as int),
        decreases volumes@.len() - i,
    {
        let ghost now = disk_views(disks@);
        let file: String = cat3("vol-", volumes[i].0.as_str(), ".img");
        disks.push(DiskSpec { path: join(dir, file.as_str()), read_only: false });
        proof {
            assert(all[2 + i as int] == disks@[disks@.len() - 1]@);
            assert(disk_views(disks@) =~= now.push(all[2 + i as int]));
            assert(now.push(all[2 + i as int]) =~= all.take(3 + i as int));
        }
        i = i + 1;
    }
    assert(all.take(2 + volumes@.len() as int) =~= all);
    disks
}

fn make_shares(mounts: &Vec<(String, bool)>) -> (shares: Vec<ShareSpec>)
    ensures
        share_views(shares@) == shares_of(mount_views(mounts@)),
{
    let ghost all = shares_of(mount_views(mounts@));
    let mut shares: Vec<ShareSpec> = Vec::new();
    let mut i: usize = 0;
    assert(share_views(shares@) =~= all.take(0));
    while i < mounts.len()
        invariant
            i <= mounts@.len(),
            all == shares_of(mount_views(mounts@)),
            shares@.len() == i,
            share_views(shares@) == all.take(i as int),
        decreases mounts@.len() - i,
    {
        let ghost now = share_views(shares@);
        let tag: String = cat2("mount", decimal_str(i as u64).as_str());
        shares.push(
            ShareSpec { tag, host_path: owned(mounts[i].0.as_str()), read_only: mounts[i].1 },
        );
        proof {
            assert(all[i as int] == shares@[i as int]@);
            assert(share_views(shares@) =~= now.push(all[i as int]));
            assert(now.push(all[i as int]) =~= all.take(i as int + 1));
        }
        i = i + 1;
    }
    assert(all.take(mounts@.len() as int) =~= all);
    shares
}

pub(crate) fn make_share_args(shares: &Vec<ShareSpec>) -> (args: Vec<String>)
    ensures
        crate::text::views(args@) == share_args(share_views(shares@)),
{
    let ghost all = share_args(share_views(shares@));
    let mut args: Vec<String> = Vec::new();
    let mut i: usize = 0;
    assert(crate::text::views(args@) =~= all.take(0));
    while i < shares.len()
        invariant
            i <= shares@.len(),
            all == share_args(share_views(shares@)),
            crate::text::views(args@) == all.take(i as int),
        decreases shares@.len() - i,
    {
        let ghost now = crate::text::views(args@);
        let hex: String = hex_lower(shares[i].host_path.as_str().as_bytes());
        let arg: String = cat4(
            shares[i].tag.as_str(),
            "=",
            hex.as_str(),
            if shares[i].read_only { ":ro" } else { "" },
        );
        let ghost text = arg@;
        args.push(arg);
        proof {
            assert(all[i as int] == text);
            assert(crate::text::views(args@) =~= now.push(text));
            assert(now.push(text) =~= all.take(i as int + 1));
        }
        i = i + 1;
    }
    assert(all.take(shares@.len() as int) =~= all);
    args
}

fn make_volume_names(volumes: &Vec<(String, u64)>) -> (names: Vec<String>)
    ensures
        crate::text::views(names@) == volume_names(volume_views(volumes@)),
{
    let ghost all = volume_names(volume_views(volumes@));
    let mut names: Vec<String> = Vec::new();
    let mut i: usize = 0;
    assert(crate::text::views(names@) =~= all.take(0));
    while i < volumes.len()
        invariant
            i <= volumes@.len(),
            all == volume_names(volume_views(volumes@)),
            crate::text::views(names@) == all.take(i as int),
        decreases volumes@.len() - i,
    {
        let ghost now = crate::text::views(names@);
        names.push(owned(volumes[i].0.as_str()));
        proof {
            assert(all[i as int] == volumes@[i as int].0@);
            assert(crate::text::views(names@) =~= now.push(all[i as int]));
            assert(now.push(all[i as int]) =~= all.take(i as int + 1));
        }
        i = i + 1;
    }
    assert(all.take(volumes@.len() as int) =~= all);
    names
}

fn make_cmdline(opts: &CreateOpts, shares: &Vec<ShareSpec>) -> (s: String)
    requires
        share_views(shares@) == shares_of(opts@.mounts),
    ensures
        s@ == cmdline_of(opts@),
{
    let mut s: String = owned(
        "console=hvc0 root=/dev/vda rw rootfstype=ext4 init=/sbin/nebula-init reboot=k panic=10 NEBULA_AGENT_ONLY=1",
    );
    proof {
        reveal_strlit("");
        assert(""@ =~= Seq::<char>::empty());
    }
    if opts.volumes.len() > 0 {
        let names: Vec<String> = make_volume_names(&opts.volumes);
        s.append(" NEBULA_VOLUMES=");
        s.append(crate::text::join(&names, ",").as_str());
    }
    let ghost mid = base_cmdline() + (if opts@.volumes.len() == 0 {
        ""@
    } else {
        " NEBULA_VOLUMES="@ + crate::text::joined(volume_names(opts@.volumes), ","@)
    });
    assert(s@ =~= mid);
    if opts.mounts.len() > 0 {
        let args: Vec<String> = make_share_args(shares);
        s.append(" NEBULA_SHARES=");
        s.append(crate::text::join(&args, ",").as_str());
    }
    assert(s@ =~= cmdline_of(opts@));
    s
}

fn make_spec(opts: &CreateOpts, home: &str, dir: &str, facts: &CreateFacts) -> (spec: VmSpec)
    requires
        dir@ == vessel_dir(home@, opts@.name),
    ensures
        spec@ == spec_of(opts@, home@, *facts),
{
    let vz: bool = same(opts.backend.as_str(), "vz");
    let shares: Vec<ShareSpec> = make_shares(&opts.mounts);
    let cmdline: String = make_cmdline(opts, &shares);
    let vsock_ports: Vec<VsockPortMap> = vec![
        VsockPortMap { port: VSOCK_PORT_CONTROL, host_path: join(dir, "agent.sock") },
        VsockPortMap { port: VSOCK_PORT_SHELL, host_path: join(dir, "shell.sock") },
        VsockPortMap { port: VSOCK_PORT_DISPLAY, host_path: join(dir, "display.sock") },
    ];
    assert(port_views(vsock_ports@) =~= ports_of(dir@));
    let spec = VmSpec {
        name: cat2("vessel-", opts.name.as_str()),
        cpus: opts.cpus,
        mem_mib: if opts.mem < 1024 { 1024 } else { opts.mem },
        boot: BootSpec::Kernel { kernel: join(home, "kernel/Image"), initramfs: None, cmdline },
        disks: make_disks(dir, &opts.volumes),
        shares,
        net: NetSpec::Nat,
        vsock: vz,
        console: ConsoleSpec::File(join(dir, "console.log")),
        balloon: false,
        rng: true,
        rosetta: false,
        gpu: opts.gpu,
        control_path: Some(join(dir, "vmm.sock")),
        restore_path: None,
        vsock_ports,
        backend: Some(owned(opts.backend.as_str())),
        mac: if vz { opt_owned(&facts.mac) } else { None },
        machine_id: if vz { opt_owned(&facts.machine_id) } else { None },
    };
    spec
}

/// Whether the sizes of the disks can be written in bytes.
pub fn sizes_fit(opts: &CreateOpts) -> (r: bool)
    ensures
        r == (opts.data_gib * GIB <= u64::MAX && forall|i: int|
            0 <= i < opts.volumes@.len() ==> (#[trigger] opts.volumes@[i]).1 * GIB <= u64::MAX),
{
    let most: u64 = u64::MAX / GIB;
    if opts.data_gib > most {
        return false;
    }
    let mut i: usize = 0;
    while i < opts.volumes.len()
        invariant
            i <= opts.volumes@.len(),
            most == u64::MAX / GIB,
            forall|j: int| 0 <= j < i ==> (#[trigger] opts.volumes@[j]).1 * GIB <= u64::MAX,
        decreases opts.volumes@.len() - i,
    {
        if opts.volumes[i].1 > most {
            assert(opts.volumes@[i as int].1 * GIB > u64::MAX);
            return false;
        }
        i = i + 1;
    }
    true
}

/// What creating a vessel amounts to. Does not start it.
pub fn create(opts: &CreateOpts, rootfs: Rootfs, home: &str, facts: &CreateFacts) -> (plan: CreatePlan)
    requires
        refusal(opts@, *facts) is None && lack(opts@, rootfs, home@, *facts) is None && (rootfs
            == Rootfs::BaseImage || !facts.own_data) ==> opts.data_gib * GIB <= u64::MAX,
        refusal(opts@, *facts) is None && lack(opts@, rootfs, home@, *facts) is None ==> forall|
            i: int,
        |
            0 <= i < opts.volumes@.len() ==> (#[trigger] opts.volumes@[i]).1 * GIB <= u64::MAX,
    ensures
        step_views(plan.steps@) == create_steps(opts@, rootfs, home@, *facts),
        match plan.result {
            Ok(c) => refusal(opts@, *facts) is None && lack(opts@, rootfs, home@, *facts) is None
                && c.dir@ == vessel_dir(home@, opts@.name) && c.spec@ == spec_of(
                opts@,
                home@,
                *facts,
            ),
            Err(e) => if refusal(opts@, *facts) is Some {
                refusal(opts@, *facts) == Some(e@)
            } else {
                lack(opts@, rootfs, home@, *facts) == Some(e@)
            },
        },
{
    let mut steps: Vec<FsStep> = Vec::new();
    let vz: bool = same(opts.backend.as_str(), "vz");
    assert(step_views(steps@) =~= Seq::empty());
    if !vz && !same(opts.backend.as_str(), "krun") {
        return CreatePlan {
            steps,
            result: Err(VesselError::BadBackend { backend: owned(opts.backend.as_str()) }),
        };
    }
    if vz && !facts.macos {
        return CreatePlan { steps, result: Err(VesselError::VzElsewhere) };
    }
    if opts.gpu && vz {
        return CreatePlan { steps, result: Err(VesselError::VzGpu) };
    }
    let dir: String = match dir_of(home, opts.name.as_str()) {
        Ok(d) => d,
        Err(e) => {
            return CreatePlan { steps, result: Err(e) };
        },
    };
    if !facts.kernel {
        return CreatePlan { steps, result: Err(VesselError::NoKernel) };
    }
    steps.push(FsStep::MakeDirs(owned(dir.as_str())));
    let ghost made = seq![StepView::MakeDirs(dir@)];
    assert(step_views(steps@) =~= made);
    match rootfs {
        Rootfs::BaseImage => {
            // Clone from the pristine store rather than from a live disk.
            let base: String = if facts.pristine {
                join(home, "images/rootfs-pristine.img")
            } else {
                join(home, "disks/rootfs.img")
            };
            if !facts.pristine && !facts.live_rootfs {
                return CreatePlan { steps, result: Err(VesselError::NoImages) };
            }
            steps.push(FsStep::Clone { from: base, to: join(dir.as_str(), "rootfs.img") });
            steps.push(
                FsStep::Sparse { path: join(dir.as_str(), "data.img"), len: opts.data_gib * GIB },
            );
        },
        Rootfs::Prepared => {
            if !facts.own_rootfs {
                return CreatePlan { steps, result: Err(VesselError::NotPrepared { dir }) };
            }
            if !facts.own_data {
                steps.push(
                    FsStep::Sparse {
                        path: join(dir.as_str(), "data.img"),
                        len: opts.data_gib * GIB,
                    },
                );
            }
        },
    }
    assert(step_views(steps@) =~= made + base_steps(opts@, rootfs, home@, *facts));
    push_volume_steps(&mut steps, dir.as_str(), &opts.volumes);
    let spec: VmSpec = make_spec(opts, home, dir.as_str(), facts);
    CreatePlan { steps, result: Ok(Created { dir, spec }) }
}

/// Every disk that the description names was put in place: it is the root disk
/// that was cloned or prepared, the data disk, or the sparse file of a volume.
pub proof fn described_disks_exist(o: CreateView, rootfs: Rootfs, home: Seq<char>, f: CreateFacts)
    requires
        refusal(o, f) is None,
        lack(o, rootfs, home, f) is None,
    ensures
        forall|i: int|
            2 <= i < spec_of(o, home, f).disks.len() ==> create_steps(
                o,
                rootfs,
                home,
                f,
            ).contains(
                StepView::Sparse {
                    path: (#[trigger] spec_of(o, home, f).disks[i]).path,
                    len: (o.volumes[i - 2].1 * GIB) as u64,
                },
            ),
        rootfs == Rootfs::BaseImage ==> create_steps(o, rootfs, home, f)[1]->Clone_to == spec_of(
            o,
            home,
            f,
        ).disks[0].path,
        rootfs == Rootfs::BaseImage || !f.own_data ==> create_steps(o, rootfs, home, f).contains(
            StepView::Sparse {
                path: spec_of(o, home, f).disks[1].path,
                len: (o.data_gib * GIB) as u64,
            },
        ),
{
    let dir = vessel_dir(home, o.name);
    let base = seq![StepView::MakeDirs(dir)] + base_steps(o, rootfs, home, f);
    let vols = volume_steps(dir, o.volumes);
    let all = create_steps(o, rootfs, home, f);
    assert(all == base + vols);
    let disks = spec_of(o, home, f).disks;
    assert forall|i: int| 2 <= i < disks.len() implies all.contains(
        StepView::Sparse {
            path: (#[trigger] disks[i]).path,
            len: (o.volumes[i - 2].1 * GIB) as u64,
        },
    ) by {
        assert(all[base.len() + (i - 2)] == vols[i - 2]);
    }
    if rootfs == Rootfs::BaseImage {
        assert(all[2] == base[2]);
    } else if !f.own_data {
        assert(all[1] == base[1]);
    }
}

/// What refuses a vessel: a backend that is not known, that is not there, or
/// that has no GPU; a name that is no name; no kernel. Nothing is touched then.
pub proof fn when_a_vessel_is_refused(o: CreateView, rootfs: Rootfs, home: Seq<char>, f: CreateFacts)
    ensures
        refusal(o, f) is None <==> (f.kernel && name_problem(o.name) is None && (o.backend
            == "krun"@ || (o.backend == "vz"@ && f.macos && !o.gpu))),
        refusal(o, f) is Some ==> create_steps(o, rootfs, home, f).len() == 0,
        refusal(o, f) is None && lack(o, rootfs, home, f) is None <==> (refusal(o, f) is None
            && match rootfs {
            Rootfs::BaseImage => f.pristine || f.live_rootfs,
            Rootfs::Prepared => f.own_rootfs,
        }),
{
    reveal_strlit("krun");
    reveal_strlit("vz");
    assert("krun"@.len() == 4 && "vz"@.len() == 2);
}

/// What creating a vessel leaves behind: its directory first; a root disk
/// cloned from the pristine image, or from the live one where that is missing,
/// unless one was prepared; a data disk unless there is one; and a file for
/// every volume, each as long as was asked for.
pub proof fn what_is_put_in_place(o: CreateView, rootfs: Rootfs, home: Seq<char>, f: CreateFacts)
    requires
        refusal(o, f) is None,
        lack(o, rootfs, home, f) is None,
        o.data_gib * 1073741824 <= u64::MAX,
        forall|i: int|
            0 <= i < o.volumes.len() ==> (#[trigger] o.volumes[i]).1 * 1073741824 <= u64::MAX,
    ensures
        ({
            let dir = vessel_dir(home, o.name);
            let steps = create_steps(o, rootfs, home, f);
            let fresh = rootfs == Rootfs::BaseImage;
            let data = fresh || !f.own_data;
            &&& steps[0] == StepView::MakeDirs(dir)
            &&& fresh ==> steps[1] == (StepView::Clone {
                from: if f.pristine {
                    joined_path(home, "images/rootfs-pristine.img"@)
                } else {
                    joined_path(home, "disks/rootfs.img"@)
                },
                to: joined_path(dir, "rootfs.img"@),
            })
            &&& data ==> exists|i: int|
                0 < i < steps.len() && (#[trigger] steps[i] matches StepView::Sparse { path, len }
                    && path == joined_path(dir, "data.img"@) && len == o.data_gib * 1073741824)
            &&& forall|v: int|
                0 <= v < o.volumes.len() ==> (#[trigger] steps[steps.len() - o.volumes.len()
                    + v] matches StepView::Sparse { path, len } && path == joined_path(
                    dir,
                    "vol-"@ + o.volumes[v].0 + ".img"@,
                ) && len == o.volumes[v].1 * 1073741824)
            &&& steps.len() == 1 + (if fresh {
                1int
            } else {
                0
            }) + (if data {
                1int
            } else {
                0
            }) + o.volumes.len()
        }),
{
    let dir = vessel_dir(home, o.name);
    let base = seq![StepView::MakeDirs(dir)] + base_steps(o, rootfs, home, f);
    let vols = volume_steps(dir, o.volumes);
    let steps = create_steps(o, rootfs, home, f);
    assert(steps == base + vols);
    if rootfs == Rootfs::BaseImage {
        assert(steps[2] == base[2]);
        assert(steps[1] == base[1]);
    } else if !f.own_data {
        assert(steps[1] == base[1]);
    }
    assert forall|v: int| 0 <= v < o.volumes.len() implies (#[trigger] steps[steps.len()
        - o.volumes.len() + v] matches StepView::Sparse { path, len } && path == joined_path(
        dir,
        "vol-"@ + o.volumes[v].0 + ".img"@,
    ) && len == o.volumes[v].1 * 1073741824) by {
        assert(steps[base.len() + v] == vols[v]);
        assert(o.volumes[v].1 * 1073741824 <= u64::MAX);
    }
}

/// What a vessel's description says: who it is and how large, that it boots its
/// own root disk, with its data disk and its volumes behind it, all writable;
/// and where its console, its control and its channels are, all in its own
/// directory. Memory is no less than a gibibyte.
pub proof fn what_a_description_says(o: CreateView, home: Seq<char>, f: CreateFacts)
    ensures
        ({
            let dir = vessel_dir(home, o.name);
            let s = spec_of(o, home, f);
            &&& s.name == "vessel-"@ + o.name
            &&& s.cpus == o.cpus
            &&& s.mem_mib >= 1024 && s.mem_mib >= o.mem && (s.mem_mib == o.mem || s.mem_mib == 1024)
            &&& s.kernel == joined_path(home, "kernel/Image"@)
            &&& s.initramfs is None && s.restore_path is None
            &&& s.gpu == o.gpu && s.rng && !s.balloon && !s.rosetta
            &&& s.backend == Some(o.backend)
            &&& s.vsock <==> o.backend == "vz"@
            &&& s.mac == (if o.backend == "vz"@ {
                crate::text::opt_view(f.mac)
            } else {
                None
            })
            &&& s.machine_id == (if o.backend == "vz"@ {
                crate::text::opt_view(f.machine_id)
            } else {
                None
            })
            &&& s.console == Some(joined_path(dir, "console.log"@))
            &&& s.control_path == Some(joined_path(dir, "vmm.sock"@))
            &&& s.disks.len() == 2 + o.volumes.len()
            &&& s.disks[0].path == joined_path(dir, "rootfs.img"@)
            &&& s.disks[1].path == joined_path(dir, "data.img"@)
            &&& forall|i: int|
                0 <= i < o.volumes.len() ==> (#[trigger] s.disks[i + 2]).path == joined_path(
                    dir,
                    "vol-"@ + o.volumes[i].0 + ".img"@,
                )
            &&& forall|i: int| 0 <= i < s.disks.len() ==> !(#[trigger] s.disks[i]).read_only
            &&& s.shares.len() == o.mounts.len()
            &&& forall|i: int|
                0 <= i < o.mounts.len() ==> (#[trigger] s.shares[i]).host_path == o.mounts[i].0
                    && s.shares[i].read_only == o.mounts[i].1 && s.shares[i].tag == "mount"@
                    + crate::text::decimal(i as nat)
            &&& s.vsock_ports.len() == 3
            &&& s.vsock_ports.contains(
                (PortView { port: 1024, host_path: joined_path(dir, "agent.sock"@) }),
            )
            &&& s.vsock_ports.contains(
                (PortView { port: 1025, host_path: joined_path(dir, "shell.sock"@) }),
            )
            &&& s.vsock_ports.contains(
                (PortView { port: 1027, host_path: joined_path(dir, "display.sock"@) }),
            )
        }),
{
    let dir = vessel_dir(home, o.name);
    let s = spec_of(o, home, f);
    let p = s.vsock_ports;
    assert(p[0].port == VSOCK_PORT_CONTROL && p[1].port == VSOCK_PORT_SHELL && p[2].port
        == VSOCK_PORT_DISPLAY);
    assert(p.contains(p[0]) && p.contains(p[1]) && p.contains(p[2]));
    assert forall|i: int| 0 <= i < o.volumes.len() implies (#[trigger] s.disks[i + 2]).path
        == joined_path(dir, "vol-"@ + o.volumes[i].0 + ".img"@) by {}
    assert forall|i: int| 0 <= i < s.disks.len() implies !(#[trigger] s.disks[i]).read_only by {}
}

/// The guest is told of every volume by its name and of every share by its tag
/// and its path, read-only where it is; and boots as an agent from its root
/// disk.
pub proof fn what_the_guest_is_told(o: CreateView)
    ensures
        crate::text::has_prefix(
            cmdline_of(o),
            "console=hvc0 root=/dev/vda rw rootfstype=ext4 init=/sbin/nebula-init"@,
        ),
        crate::text::has_part(cmdline_of(o), " NEBULA_AGENT_ONLY=1"@),
        o.volumes.len() > 0 ==> crate::text::has_part(
            cmdline_of(o),
            " NEBULA_VOLUMES="@ + crate::text::joined(
                Seq::new(o.volumes.len(), |i: int| o.volumes[i].0),
                ","@,
            ),
        ),
        o.mounts.len() > 0 ==> crate::text::has_part(
            cmdline_of(o),
            " NEBULA_SHARES="@ + crate::text::joined(
                Seq::new(
                    o.mounts.len(),
                    |i: int|
                        "mount"@ + crate::text::decimal(i as nat) + "="@ + crate::text::hex_of(
                            encode_utf8(o.mounts[i].0),
                        ) + (if o.mounts[i].1 {
                            ":ro"@
                        } else {
                            ""@
                        }),
                ),
                ","@,
            ),
        ),
        o.volumes.len() == 0 && o.mounts.len() == 0 ==> cmdline_of(o) == base_cmdline(),
{
    let c = cmdline_of(o);
    let b = base_cmdline();
    let v = if o.volumes.len() == 0 {
        ""@
    } else {
        " NEBULA_VOLUMES="@ + crate::text::joined(volume_names(o.volumes), ","@)
    };
    let m = if o.mounts.len() == 0 {
        ""@
    } else {
        " NEBULA_SHARES="@ + crate::text::joined(share_args(shares_of(o.mounts)), ","@)
    };
    assert(c == b + v + m);
    reveal_strlit("");
    reveal_strlit("console=hvc0 root=/dev/vda rw rootfstype=ext4 init=/sbin/nebula-init");
    reveal_strlit(
        "console=hvc0 root=/dev/vda rw rootfstype=ext4 init=/sbin/nebula-init reboot=k panic=10 NEBULA_AGENT_ONLY=1",
    );
    reveal_strlit(" NEBULA_AGENT_ONLY=1");
    let head = "console=hvc0 root=/dev/vda rw rootfstype=ext4 init=/sbin/nebula-init"@;
    let tail = " NEBULA_AGENT_ONLY=1"@;
    let n = b.len() - tail.len();
    assert(c.subrange(0, head.len() as int) =~= head);
    assert(c.subrange(n, n + tail.len()) =~= tail);
    assert(crate::text::occurs_at(c, tail, n));
    if o.volumes.len() > 0 {
        assert(volume_names(o.volumes) =~= Seq::new(o.volumes.len(), |i: int| o.volumes[i].0));
        assert(c.subrange(b.len() as int, (b.len() + v.len()) as int) =~= v);
        assert(crate::text::occurs_at(c, v, b.len() as int));
    }
    if o.mounts.len() > 0 {
        let told = Seq::new(
            o.mounts.len(),
            |i: int|
                "mount"@ + crate::text::decimal(i as nat) + "="@ + crate::text::hex_of(
                    encode_utf8(o.mounts[i].0),
                ) + (if o.mounts[i].1 {
                    ":ro"@
                } else {
                    ""@
                }),
        );
        assert(share_args(shares_of(o.mounts)) =~= told);
        let at = b.len() + v.len();
        assert(c.subrange(at as int, (at + m.len()) as int) =~= m);
        assert(crate::text::occurs_at(c, m, at as int));
    }
    if o.volumes.len() == 0 && o.mounts.len() == 0 {
        assert(c =~= b);
    }
}

} // verus!

//! The engine's vessel: the single VM that the daemon manages.

use crate::backend::VmState;
use crate::config::{Config, Effective, ShareEntry};
use crate::creation::{make_share_args, share_arg, share_args};
use crate::paths::{join, joined_path, Paths};
use crate::ports::PortPlan;
use crate::proto::{
    VSOCK_PORT_CONTAINERD, VSOCK_PORT_CONTROL, VSOCK_PORT_DOCKER, VSOCK_PORT_SHELL,
};
use crate::spec::{
    disk_views, port_views, share_views, BootSpec, ConsoleSpec, DiskSpec, DiskView, NetSpec, PortView,
    ShareSpec, ShareView, SpecView, VmSpec, VsockPortMap,
};
use crate::text::{cat2, cat3, decimal_str, hex_lower, opt_owned, owned, same, trim};
use vstd::prelude::*;
use vstd::string::{StrSliceExecFns, StringExecFns};

verus! {

/// Lowercase hexadecimal. Paths can hold spaces, colons and commas that would
/// break the kernel command line into words; this keeps each to `[0-9a-f]`.
pub fn hex_encode(bytes: &[u8]) -> (s: String)
    ensures
        s@ == crate::text::hex_of(bytes@),
{
    hex_lower(bytes)
}

/// The bytes that a row of hexadecimal digits writes, two for each.
pub open spec fn hex_decoded(s: Seq<char>) -> Seq<u8>
    decreases s.len(),
{
    if s.len() < 2 {
        Seq::empty()
    } else {
        let n = s.len() as int;
        match (crate::text::hex_value(s[n - 2]), crate::text::hex_value(s[n - 1])) {
            (Some(h), Some(l)) => hex_decoded(s.take(n - 2)).push((h * 16 + l) as u8),
            _ => Seq::empty(),
        }
    }
}

/// What is encoded is decoded, and is one clean word whatever the bytes: its
/// characters are digits and the letters a to f.
pub proof fn hex_reads_back(b: Seq<u8>)
    ensures
        hex_decoded(crate::text::hex_of(b)) == b,
        crate::text::hex_of(b).len() == 2 * b.len(),
        forall|i: int|
            0 <= i < crate::text::hex_of(b).len() ==> ('0' <= #[trigger] crate::text::hex_of(b)[i]
                <= '9') || ('a' <= crate::text::hex_of(b)[i] <= 'f'),
    decreases b.len(),
{
    let s = crate::text::hex_of(b);
    if b.len() > 0 {
        hex_reads_back(b.drop_last());
        let t = crate::text::hex_of(b.drop_last());
        let x = b.last();
        assert(s == t + seq![
            crate::text::hex_digit(x as int / 16),
            crate::text::hex_digit(x as int % 16),
        ]);
        assert(s.take(s.len() - 2) =~= t);
        assert(s[s.len() - 2] == crate::text::hex_digit(x as int / 16));
        assert(s[s.len() - 1] == crate::text::hex_digit(x as int % 16));
        assert(hex_decoded(s) =~= b);
        assert forall|i: int| 0 <= i < s.len() implies ('0' <= #[trigger] s[i] <= '9') || ('a' <= s[i]
            <= 'f') by {
            if i < t.len() {
                assert(s[i] == t[i]);
            }
        }
    } else {
        assert(hex_decoded(s) =~= b);
    }
}

/// The configured shares that are still directories, under the tags `share0`,
/// `share1` and so on: skipped entries take no tag.
pub open spec fn extra_shares(entries: Seq<ShareEntry>, is_dir: Seq<bool>) -> Seq<ShareView>
    decreases entries.len(),
{
    if entries.len() == 0 {
        Seq::empty()
    } else {
        let n = entries.len() - 1;
        let before = extra_shares(entries.drop_last(), is_dir);
        if is_dir[n] {
            before.push(
                ShareView {
                    tag: "share"@ + crate::text::decimal(before.len()),
                    host_path: entries[n].path@,
                    read_only: entries[n].read_only,
                },
            )
        } else {
            before
        }
    }
}

/// The engine's shares: the home directory under the tag `home`, where it is a
/// directory, then the configured ones.
pub open spec fn engine_shares(
    home: Option<Seq<char>>,
    entries: Seq<ShareEntry>,
    is_dir: Seq<bool>,
) -> Seq<ShareView> {
    (match home {
        Some(h) => seq![ShareView { tag: "home"@, host_path: h, read_only: false }],
        None => Seq::empty(),
    }) + extra_shares(entries, is_dir)
}

/// Share the user's home and the configured directories at their own paths. A
/// configured path that has vanished is dropped rather than failing the boot.
pub fn vessel_shares(home: &Option<String>, entries: &Vec<ShareEntry>, is_dir: &Vec<bool>) -> (r: Vec<
    ShareSpec,
>)
    requires
        is_dir@.len() == entries@.len(),
    ensures
        share_views(r@) == engine_shares(crate::text::opt_view(*home), entries@, is_dir@),
{
    let mut r: Vec<ShareSpec> = Vec::new();
    match home {
        Some(h) => {
            r.push(
                ShareSpec { tag: owned("home"), host_path: owned(h.as_str()), read_only: false },
            );
        },
        None => {},
    }
    let ghost head = share_views(r@);
    let mut n: u64 = 0;
    let mut i: usize = 0;
    assert(entries@.take(0) =~= Seq::empty());
    assert(share_views(r@) =~= head + extra_shares(entries@.take(0), is_dir@));
    while i < entries.len()
        invariant
            i <= entries@.len(),
            is_dir@.len() == entries@.len(),
            n <= i,
            n == extra_shares(entries@.take(i as int), is_dir@).len(),
            share_views(r@) == head + extra_shares(entries@.take(i as int), is_dir@),
        decreases entries@.len() - i,
    {
        let ghost before = extra_shares(entries@.take(i as int), is_dir@);
        let ghost now = share_views(r@);
        proof {
            let longer = entries@.take(i as int + 1);
            assert(longer.drop_last() =~= entries@.take(i as int));
            assert(longer[i as int] == entries@[i as int]);
        }
        if is_dir[i] {
            let s = ShareSpec {
                tag: cat2("share", decimal_str(n).as_str()),
                host_path: owned(entries[i].path.as_str()),
                read_only: entries[i].read_only,
            };
            let ghost sv = s@;
            r.push(s);
            proof {
                assert(share_views(r@) =~= now.push(sv));
                assert(now.push(sv) =~= head + before.push(sv));
            }
            n = n + 1;
        }
        i = i + 1;
    }
    assert(entries@.take(entries@.len() as int) =~= entries@);
    r
}

/// The shares beside the home, which the guest learns of by its own variable.
pub open spec fn beside_home(shares: Seq<ShareView>) -> Seq<ShareView>
    decreases shares.len(),
{
    if shares.len() == 0 {
        Seq::empty()
    } else if shares.last().tag == "home"@ {
        beside_home(shares.drop_last())
    } else {
        beside_home(shares.drop_last()).push(shares.last())
    }
}

/// The engine's kernel command line: the user's home, where it is known; the
/// port of the host's resolver; the shares beside the home, where there are
/// any.
pub open spec fn engine_cmdline(home: Option<Seq<char>>, dns_port: u16, shares: Seq<ShareView>) -> Seq<
    char,
> {
    let extras = beside_home(shares);
    "console=hvc0 root=/dev/vda rw rootfstype=ext4 init=/sbin/nebula-init reboot=k panic=10"@ + (
    match home {
        Some(h) => " NEBULA_HOME="@ + h,
        None => ""@,
    }) + " NEBULA_DNS_PORT="@ + crate::text::decimal(dns_port as nat) + (if extras.len() == 0 {
        ""@
    } else {
        " NEBULA_SHARES="@ + crate::text::joined(share_args(extras), ","@)
    })
}

fn drop_home(shares: &Vec<ShareSpec>) -> (r: Vec<ShareSpec>)
    ensures
        share_views(r@) == beside_home(share_views(shares@)),
{
    let ghost all = share_views(shares@);
    let mut r: Vec<ShareSpec> = Vec::new();
    let mut i: usize = 0;
    assert(all.take(0) =~= Seq::empty());
    assert(share_views(r@) =~= Seq::empty());
    while i < shares.len()
        invariant
            i <= shares@.len(),
            all == share_views(shares@),
            share_views(r@) == beside_home(all.take(i as int)),
        decreases shares@.len() - i,
    {
        let ghost now = share_views(r@);
        proof {
            let longer = all.take(i as int + 1);
            assert(longer.drop_last() =~= all.take(i as int));
            assert(longer.last() == shares@[i as int]@);
        }
        if !same(shares[i].tag.as_str(), "home") {
            let s = ShareSpec {
                tag: owned(shares[i].tag.as_str()),
                host_path: owned(shares[i].host_path.as_str()),
                read_only: shares[i].read_only,
            };
            let ghost sv = s@;
            r.push(s);
            assert(share_views(r@) =~= now.push(sv));
        }
        i = i + 1;
    }
    assert(all.take(shares@.len() as int) =~= all);
    r
}

/// The kernel command line. The guest is told the port of the plan, not that
/// of the configuration: the resolver may have moved.
pub fn vessel_cmdline(plan: &PortPlan, home: &Option<String>, shares: &Vec<ShareSpec>) -> (s: String)
    ensures
        s@ == engine_cmdline(crate::text::opt_view(*home), plan@.dns_port, share_views(shares@)),
{
    let mut s: String = owned(
        "console=hvc0 root=/dev/vda rw rootfstype=ext4 init=/sbin/nebula-init reboot=k panic=10",
    );
    let home_word: String = match home {
        Some(h) => cat2(" NEBULA_HOME=", h.as_str()),
        None => owned(""),
    };
    s.append(home_word.as_str());
    s.append(" NEBULA_DNS_PORT=");
    s.append(decimal_str(plan.dns_port as u64).as_str());
    let extras: Vec<ShareSpec> = drop_home(shares);
    assert(share_views(extras@).len() == extras@.len());
    let tail: String = if extras.len() == 0 {
        owned("")
    } else {
        let args: Vec<String> = make_share_args(&extras);
        cat2(" NEBULA_SHARES=", crate::text::join(&args, ",").as_str())
    };
    s.append(tail.as_str());
    s
}

/// The MAC that the engine keeps: one minted earlier is reused, so that its
/// lease is too. None where a new one is to be minted and written.
pub fn kept_mac(file: &Option<String>) -> (r: Option<String>)
    ensures
        crate::text::opt_view(r) == (match *file {
            Some(t) => {
                let mac = crate::text::trimmed(t@);
                if mac.len() > 0 {
                    Some(mac)
                } else {
                    None
                }
            },
            None => None,
        }),
{
    match file {
        Some(t) => {
            let mac: String = trim(t.as_str());
            if mac.as_str().unicode_len() > 0 {
                Some(mac)
            } else {
                None
            }
        },
        None => None,
    }
}

/// What a boot needs to know of the host.
#[derive(Debug)]
pub struct BootFacts {
    pub macos: bool,
    pub windows: bool,
    pub kernel_exists: bool,
    pub rootfs_exists: bool,
    /// The length of the data disk, where there is one.
    pub data_len: Option<u64>,
    /// The user's home, where the environment names it, and whether it is a
    /// directory.
    pub home: Option<String>,
    pub home_is_dir: bool,
    /// Which of the configured shares are directories.
    pub share_is_dir: Vec<bool>,
    /// The engine's MAC on macOS.
    pub mac: Option<String>,
    /// The guest port of the agent's TCP proxy.
    pub tcpproxy_port: u32,
}

/// A boot: the length of the data disk to create, if any; the VM; the backend.
#[derive(Debug)]
pub struct BootPlan {
    pub create_data: Option<u64>,
    pub spec: VmSpec,
    pub backend: &'static str,
}

pub open spec fn kernel_of(cfg: Config, root: Seq<char>) -> Seq<char> {
    match cfg.kernel {
        Some(k) => k@,
        None => joined_path(joined_path(root, "kernel"@), "Image"@),
    }
}

pub open spec fn rootfs_of(cfg: Config, root: Seq<char>) -> Seq<char> {
    match cfg.rootfs {
        Some(r) => r@,
        None => joined_path(joined_path(root, "disks"@), "rootfs.img"@),
    }
}

pub open spec fn data_of(root: Seq<char>) -> Seq<char> {
    joined_path(joined_path(root, "disks"@), "data.img"@)
}

/// What stands in the way of a boot.
pub open spec fn boot_problem(cfg: Config, root: Seq<char>, f: BootFacts) -> Option<Seq<char>> {
    if !f.kernel_exists {
        Some(
            "guest kernel not found at "@ + kernel_of(cfg, root)
                + " — run `nebula install-image` (dev: vessel/build-kernel.sh then nebula up --install)"@,
        )
    } else if !f.rootfs_exists {
        Some(
            "rootfs image not found at "@ + rootfs_of(cfg, root)
                + " — run `nebula install-image` (dev: vessel/build-rootfs.sh then nebula up --install)"@,
        )
    } else {
        None
    }
}

/// The channels of the engine's guest: mapped to host sockets where the
/// backend has no vsock device.
pub open spec fn engine_ports(run: Seq<char>, tcpproxy: u32) -> Seq<PortView> {
    seq![
        PortView { port: VSOCK_PORT_CONTROL, host_path: joined_path(run, "agent.vsock"@) },
        PortView { port: tcpproxy, host_path: joined_path(run, "tcpproxy.vsock"@) },
        PortView { port: VSOCK_PORT_SHELL, host_path: joined_path(run, "shell.vsock"@) },
        PortView { port: VSOCK_PORT_DOCKER, host_path: joined_path(run, "docker.vsock"@) },
        PortView { port: VSOCK_PORT_CONTAINERD, host_path: joined_path(run, "containerd.vsock"@) },
    ]
}

/// The engine's shares on this host; the Windows backend has no virtiofs.
pub open spec fn boot_shares(cfg: Config, f: BootFacts) -> Seq<ShareView> {
    if f.windows {
        Seq::empty()
    } else {
        engine_shares(
            if f.home_is_dir {
                crate::text::opt_view(f.home)
            } else {
                None
            },
            cfg.shares@,
            f.share_is_dir@,
        )
    }
}

/// The engine's VM. On macOS it has the framework's vsock and balloon, Rosetta
/// and a MAC of its own; elsewhere its channels are host sockets.
pub open spec fn engine_spec(
    cfg: Config,
    eff: Effective,
    root: Seq<char>,
    dns_port: u16,
    f: BootFacts,
) -> SpecView {
    let shares = boot_shares(cfg, f);
    SpecView {
        name: "vessel"@,
        cpus: eff.cpus,
        mem_mib: eff.mem_mib,
        kernel: kernel_of(cfg, root),
        initramfs: None,
        cmdline: engine_cmdline(crate::text::opt_view(f.home), dns_port, shares),
        disks: seq![
            DiskView { path: rootfs_of(cfg, root), read_only: false },
            DiskView { path: data_of(root), read_only: false },
        ],
        shares,
        net: NetSpec::Nat,
        vsock: f.macos,
        console: Some(joined_path(joined_path(root, "logs"@), "vessel-console.log"@)),
        balloon: f.macos,
        rng: true,
        rosetta: f.macos,
        gpu: false,
        control_path: None,
        restore_path: None,
        vsock_ports: if f.macos {
            Seq::empty()
        } else {
            engine_ports(joined_path(root, "run"@), f.tcpproxy_port)
        },
        backend: None,
        mac: if f.macos {
            crate::text::opt_view(f.mac)
        } else {
            None
        },
        machine_id: None,
    }
}

/// The length of the data disk to create: where it is missing, or empty, the
/// fingerprint of a creation that died half-way. One of another size is
/// somebody's data and is left alone.
pub open spec fn data_to_create(eff: Effective, f: BootFacts) -> Option<u64> {
    match f.data_len {
        Some(n) if n > 0 => None,
        _ => Some((eff.data_disk_gib * 1073741824) as u64),
    }
}

fn engine_port_maps(run: &str, tcpproxy: u32) -> (v: Vec<VsockPortMap>)
    ensures
        port_views(v@) == engine_ports(run@, tcpproxy),
{
    let v: Vec<VsockPortMap> = vec![
        VsockPortMap { port: VSOCK_PORT_CONTROL, host_path: join(run, "agent.vsock") },
        VsockPortMap { port: tcpproxy, host_path: join(run, "tcpproxy.vsock") },
        VsockPortMap { port: VSOCK_PORT_SHELL, host_path: join(run, "shell.vsock") },
        VsockPortMap { port: VSOCK_PORT_DOCKER, host_path: join(run, "docker.vsock") },
        VsockPortMap { port: VSOCK_PORT_CONTAINERD, host_path: join(run, "containerd.vsock") },
    ];
    assert(port_views(v@) =~= engine_ports(run@, tcpproxy));
    v
}

/// Plan the engine's boot.
pub fn boot(paths: &Paths, cfg: &Config, eff: Effective, plan: &PortPlan, f: &BootFacts) -> (r: Result<
    BootPlan,
    String,
>)
    requires
        eff.data_disk_gib * 1073741824 <= u64::MAX,
        f.share_is_dir@.len() == cfg.shares@.len(),
    ensures
        match r {
            Ok(b) => boot_problem(*cfg, paths.root@, *f) is None && b.create_data == data_to_create(
                eff,
                *f,
            ) && b.spec@ == engine_spec(*cfg, eff, paths.root@, plan@.dns_port, *f) && b.backend@
                == (if f.macos {
                "vz"@
            } else {
                "krun"@
            }),
            Err(e) => boot_problem(*cfg, paths.root@, *f) == Some(e@),
        },
{
    let kernel: String = match &cfg.kernel {
        Some(k) => owned(k.as_str()),
        None => paths.kernel_image(),
    };
    if !f.kernel_exists {
        return Err(
            cat3(
                "guest kernel not found at ",
                kernel.as_str(),
                " — run `nebula install-image` (dev: vessel/build-kernel.sh then nebula up --install)",
            ),
        );
    }
    let rootfs: String = match &cfg.rootfs {
        Some(k) => owned(k.as_str()),
        None => paths.rootfs_img(),
    };
    if !f.rootfs_exists {
        return Err(
            cat3(
                "rootfs image not found at ",
                rootfs.as_str(),
                " — run `nebula install-image` (dev: vessel/build-rootfs.sh then nebula up --install)",
            ),
        );
    }
    let want: u64 = eff.data_disk_gib * 1073741824;
    let create_data: Option<u64> = match f.data_len {
        Some(n) => if n > 0 {
            None
        } else {
            Some(want)
        },
        None => Some(want),
    };
    let shares: Vec<ShareSpec> = if f.windows {
        Vec::new()
    } else {
        let home: Option<String> = if f.home_is_dir {
            opt_owned(&f.home)
        } else {
            None
        };
        vessel_shares(&home, &cfg.shares, &f.share_is_dir)
    };
    assert(share_views(shares@) =~= boot_shares(*cfg, *f));
    let vsock_ports: Vec<VsockPortMap> = if f.macos {
        Vec::new()
    } else {
        engine_port_maps(paths.run_dir().as_str(), f.tcpproxy_port)
    };
    let cmdline: String = vessel_cmdline(plan, &f.home, &shares);
    let disks: Vec<DiskSpec> = vec![
        DiskSpec { path: rootfs, read_only: false },
        DiskSpec { path: paths.data_img(), read_only: false },
    ];
    let spec = VmSpec {
        name: owned("vessel"),
        cpus: eff.cpus,
        mem_mib: eff.mem_mib,
        boot: BootSpec::Kernel { kernel, initramfs: None, cmdline },
        disks,
        shares,
        net: NetSpec::Nat,
        vsock: f.macos,
        console: ConsoleSpec::File(paths.console_log()),
        balloon: f.macos,
        rng: true,
        rosetta: f.macos,
        gpu: false,
        control_path: None,
        restore_path: None,
        vsock_ports,
        backend: None,
        mac: if f.macos {
            opt_owned(&f.mac)
        } else {
            None
        },
        machine_id: None,
    };
    let ghost want_spec = engine_spec(*cfg, eff, paths.root@, plan@.dns_port, *f);
    assert(spec@.disks =~= want_spec.disks);
    assert(spec@.vsock_ports =~= want_spec.vsock_ports);
    assert(spec@.shares =~= want_spec.shares);
    Ok(
        BootPlan {
            create_data,
            spec,
            backend: if f.macos {
                "vz"
            } else {
                "krun"
            },
        },
    )
}

/// A data disk with anything on it is never recreated.
pub proof fn data_is_never_recreated(eff: Effective, f: BootFacts)
    requires
        f.data_len is Some,
        f.data_len->0 > 0,
    ensures
        data_to_create(eff, f) is None,
{
}

/// What to do while the engine is being stopped.
#[derive(Debug, Clone, Copy, PartialEq, Eq, Structural)]
pub enum StopStep {
    /// Ask the agent to power off, then look again.
    AskAgent,
    /// Look again in a moment.
    Wait,
    /// It has stopped.
    Done,
    /// Pull the plug.
    Force,
}

/// The next step of a stop: by force at once where that is asked for; else the
/// agent is asked, the guest has ten seconds, and then the plug is pulled.
pub fn stop_step(force: bool, asked: bool, state: VmState, waited_ms: u64) -> (s: StopStep)
    ensures
        s == (if force {
            StopStep::Force
        } else if !asked {
            StopStep::AskAgent
        } else if waited_ms >= 10000 {
            StopStep::Force
        } else if state == VmState::Stopped {
            StopStep::Done
        } else {
            StopStep::Wait
        }),
{
    if force {
        StopStep::Force
    } else if !asked {
        StopStep::AskAgent
    } else if waited_ms >= 10000 {
        StopStep::Force
    } else if state == VmState::Stopped {
        StopStep::Done
    } else {
        StopStep::Wait
    }
}

/// What to do while the agent comes up.
#[derive(Debug, Clone, Copy, PartialEq, Eq, Structural)]
pub enum AgentWait {
    Up,
    Wait,
    GiveUp,
}

/// The next step of a wait for the agent: it answers, or the time is over, or
/// it is asked again.
pub fn wait_agent(answered: bool, waited_ms: u64, timeout_ms: u64) -> (s: AgentWait)
    ensures
        s == (if answered {
            AgentWait::Up
        } else if waited_ms > timeout_ms {
            AgentWait::GiveUp
        } else {
            AgentWait::Wait
        }),
{
    if answered {
        AgentWait::Up
    } else if waited_ms > timeout_ms {
        AgentWait::GiveUp
    } else {
        AgentWait::Wait
    }
}

/// How many of the first so many entries are directories.
pub open spec fn dirs_before(is_dir: Seq<bool>, n: int) -> nat
    decreases n,
{
    if n <= 0 {
        0
    } else {
        dirs_before(is_dir, n - 1) + (if is_dir[n - 1] {
            1nat
        } else {
            0
        })
    }
}

/// Every configured directory that is there is shared at its own path, as it
/// is configured, under the next number; one that has vanished is not.
pub proof fn every_directory_is_shared(entries: Seq<ShareEntry>, is_dir: Seq<bool>, k: int)
    requires
        is_dir.len() == entries.len(),
        0 <= k < entries.len(),
    ensures
        extra_shares(entries, is_dir).len() == dirs_before(is_dir, entries.len() as int),
        is_dir[k] ==> dirs_before(is_dir, k) < extra_shares(entries, is_dir).len() && ({
            let s = extra_shares(entries, is_dir)[dirs_before(is_dir, k) as int];
            &&& s.host_path == entries[k].path@
            &&& s.read_only == entries[k].read_only
            &&& s.tag == "share"@ + crate::text::decimal(dirs_before(is_dir, k))
        }),
{
    if is_dir[k] {
        lemma_shared(entries, is_dir, k);
    }
    lemma_shared_len(entries, is_dir);
}

proof fn lemma_shared_len(entries: Seq<ShareEntry>, is_dir: Seq<bool>)
    requires
        entries.len() <= is_dir.len(),
    ensures
        extra_shares(entries, is_dir).len() == dirs_before(is_dir, entries.len() as int),
    decreases entries.len(),
{
    if entries.len() > 0 {
        lemma_shared_len(entries.drop_last(), is_dir);
    }
}

proof fn lemma_shared(entries: Seq<ShareEntry>, is_dir: Seq<bool>, k: int)
    requires
        entries.len() <= is_dir.len(),
        0 <= k < entries.len(),
        is_dir[k],
    ensures
        dirs_before(is_dir, k) < extra_shares(entries, is_dir).len() && ({
            let s = extra_shares(entries, is_dir)[dirs_before(is_dir, k) as int];
            &&& s.host_path == entries[k].path@
            &&& s.read_only == entries[k].read_only
            &&& s.tag == "share"@ + crate::text::decimal(dirs_before(is_dir, k))
        }),
    decreases entries.len(),
{
    let n = entries.len() - 1;
    let short = entries.drop_last();
    lemma_shared_len(short, is_dir);
    if k < n {
        lemma_shared(short, is_dir, k);
        assert(short[k] == entries[k]);
    }
}

/// The home comes first, for writing; the guest is told of the others.
pub proof fn the_home_is_shared(home: Seq<char>, entries: Seq<ShareEntry>, is_dir: Seq<bool>)
    ensures
        engine_shares(Some(home), entries, is_dir)[0] == (ShareView {
            tag: "home"@,
            host_path: home,
            read_only: false,
        }),
        engine_shares(None, entries, is_dir) == extra_shares(entries, is_dir),
        beside_home(engine_shares(Some(home), entries, is_dir)) == extra_shares(entries, is_dir),
{
    let one = seq![ShareView { tag: "home"@, host_path: home, read_only: false }];
    assert(Seq::<ShareView>::empty() + extra_shares(entries, is_dir) =~= extra_shares(
        entries,
        is_dir,
    ));
    lemma_beside(one, entries, is_dir);
}

proof fn lemma_beside(one: Seq<ShareView>, entries: Seq<ShareEntry>, is_dir: Seq<bool>)
    requires
        one.len() == 1,
        one[0].tag == "home"@,
    ensures
        beside_home(one + extra_shares(entries, is_dir)) == extra_shares(entries, is_dir),
    decreases entries.len(),
{
    let x = extra_shares(entries, is_dir);
    if entries.len() == 0 {
        assert(one + x =~= one);
        assert(one.drop_last() =~= Seq::empty());
        assert(beside_home(Seq::<ShareView>::empty()) =~= Seq::empty());
    } else {
        let before = extra_shares(entries.drop_last(), is_dir);
        lemma_beside(one, entries.drop_last(), is_dir);
        if is_dir[entries.len() - 1] {
            let all = one + x;
            assert(all.drop_last() =~= one + before);
            assert(all.last() == x.last());
            reveal_strlit("home");
            reveal_strlit("share");
            assert(x.last().tag[0] == 's');
            assert("home"@[0] == 'h');
        }
    }
}

/// What the engine's guest is told: its disk and its init, the user's home
/// where it is known, the port of the host's resolver, and the shares beside
/// the home.
pub proof fn what_the_engine_is_told(
    home: Option<Seq<char>>,
    dns_port: u16,
    shares: Seq<ShareView>,
)
    ensures
        ({
            let c = engine_cmdline(home, dns_port, shares);
            &&& crate::text::has_prefix(
                c,
                "console=hvc0 root=/dev/vda rw rootfstype=ext4 init=/sbin/nebula-init reboot=k panic=10"@,
            )
            &&& home matches Some(h) ==> crate::text::has_part(c, " NEBULA_HOME="@ + h)
            &&& crate::text::has_part(
                c,
                " NEBULA_DNS_PORT="@ + crate::text::decimal(dns_port as nat),
            )
            &&& beside_home(shares).len() > 0 ==> crate::text::has_suffix(
                c,
                " NEBULA_SHARES="@ + crate::text::joined(
                    Seq::new(
                        beside_home(shares).len(),
                        |i: int|
                            beside_home(shares)[i].tag + "="@ + crate::text::hex_of(
                                vstd::utf8::encode_utf8(beside_home(shares)[i].host_path),
                            ) + (if beside_home(shares)[i].read_only {
                                ":ro"@
                            } else {
                                ""@
                            }),
                    ),
                    ","@,
                ),
            )
        }),
{
    let c = engine_cmdline(home, dns_port, shares);
    let extras = beside_home(shares);
    let b =
        "console=hvc0 root=/dev/vda rw rootfstype=ext4 init=/sbin/nebula-init reboot=k panic=10"@;
    let h = match home {
        Some(h) => " NEBULA_HOME="@ + h,
        None => ""@,
    };
    let d = " NEBULA_DNS_PORT="@ + crate::text::decimal(dns_port as nat);
    let s = if extras.len() == 0 {
        ""@
    } else {
        " NEBULA_SHARES="@ + crate::text::joined(share_args(extras), ","@)
    };
    assert(c =~= b + h + d + s);
    assert(c.subrange(0, b.len() as int) =~= b);
    let i = b.len() as int;
    let j = i + h.len();
    let k = j + d.len();
    assert(c.subrange(i, j) =~= h);
    assert(crate::text::occurs_at(c, h, i));
    assert(c.subrange(j, k) =~= d);
    assert(crate::text::occurs_at(c, d, j));
    if extras.len() > 0 {
        let told = Seq::new(
            extras.len(),
            |i: int|
                extras[i].tag + "="@ + crate::text::hex_of(
                    vstd::utf8::encode_utf8(extras[i].host_path),
                ) + (if extras[i].read_only {
                    ":ro"@
                } else {
                    ""@
                }),
        );
        assert(share_args(extras) =~= told);
        assert(c.subrange(k, k + s.len()) =~= s);
    }
}

/// The engine's VM: its configured size, its kernel and its two disks, which
/// are those of Nebula's home unless others are configured; and on macOS the
/// framework's devices, elsewhere a socket for every channel.
pub proof fn what_the_engine_is(
    cfg: Config,
    eff: Effective,
    root: Seq<char>,
    dns_port: u16,
    f: BootFacts,
)
    ensures
        ({
            let s = engine_spec(cfg, eff, root, dns_port, f);
            &&& s.name == "vessel"@
            &&& s.cpus == eff.cpus && s.mem_mib == eff.mem_mib
            &&& s.kernel == (match cfg.kernel {
                Some(k) => k@,
                None => joined_path(joined_path(root, "kernel"@), "Image"@),
            })
            &&& s.initramfs is None
            &&& s.disks.len() == 2
            &&& s.disks[0].path == (match cfg.rootfs {
                Some(r) => r@,
                None => joined_path(joined_path(root, "disks"@), "rootfs.img"@),
            })
            &&& s.disks[1].path == joined_path(joined_path(root, "disks"@), "data.img"@)
            &&& !s.disks[0].read_only && !s.disks[1].read_only
            &&& s.cmdline == engine_cmdline(crate::text::opt_view(f.home), dns_port, s.shares)
            &&& f.windows ==> s.shares.len() == 0
            &&& !f.windows ==> s.shares == engine_shares(
                if f.home_is_dir {
                    crate::text::opt_view(f.home)
                } else {
                    None
                },
                cfg.shares@,
                f.share_is_dir@,
            )
            &&& s.vsock == f.macos && s.balloon == f.macos && s.rosetta == f.macos
            &&& s.rng && !s.gpu && s.restore_path is None && s.control_path is None
            &&& s.mac == (if f.macos {
                crate::text::opt_view(f.mac)
            } else {
                None
            })
            &&& f.macos ==> s.vsock_ports.len() == 0
            &&& !f.macos ==> {
                let run = joined_path(root, "run"@);
                let p = s.vsock_ports;
                &&& p.len() == 5
                &&& p.contains(
                    (PortView { port: 1024, host_path: joined_path(run, "agent.vsock"@) }),
                )
                &&& p.contains(
                    (PortView { port: 1025, host_path: joined_path(run, "shell.vsock"@) }),
                )
                &&& p.contains(
                    (PortView { port: 2375, host_path: joined_path(run, "docker.vsock"@) }),
                )
                &&& p.contains(
                    (PortView { port: 2376, host_path: joined_path(run, "containerd.vsock"@) }),
                )
                &&& p.contains(
                    (PortView {
                        port: f.tcpproxy_port,
                        host_path: joined_path(run, "tcpproxy.vsock"@),
                    }),
                )
            }
        }),
{
    let p = engine_spec(cfg, eff, root, dns_port, f).vsock_ports;
    if !f.macos {
        assert(p[0].port == 1024 && p[2].port == 1025 && p[3].port == 2375 && p[4].port == 2376);
        assert(p.contains(p[0]) && p.contains(p[1]) && p.contains(p[2]) && p.contains(p[3])
            && p.contains(p[4]));
    }
}

/// A data disk is created where there is none, or an empty one, and as large as
/// was asked for.
pub proof fn when_the_data_disk_is_created(eff: Effective, f: BootFacts)
    requires
        eff.data_disk_gib * 1073741824 <= u64::MAX,
    ensures
        data_to_create(eff, f) is Some <==> (f.data_len is None || f.data_len == Some(0u64)),
        data_to_create(eff, f) matches Some(n) ==> n == eff.data_disk_gib * 1073741824,
{
}

/// Nothing boots without a kernel and a root disk, and with both nothing stands
/// in the way.
pub proof fn what_a_boot_needs(cfg: Config, root: Seq<char>, f: BootFacts)
    ensures
        boot_problem(cfg, root, f) is None <==> f.kernel_exists && f.rootfs_exists,
{
}

} // verus!

//! What the guest's first process decides: what it mounts, whether it formats
//! the data disk, where its console is, and how it looks after the agent.

use crate::text::{cat2, cat4, owned, push_line, same, trim};
use vstd::prelude::*;

verus! {

pub const AGENT_PATH: &'static str = "/usr/bin/vessel-agent";

pub const DISPLAY_PATH: &'static str = "/usr/bin/vessel-display";

pub const DATA_DEV: &'static str = "/dev/vdb";

pub const DATA_MNT: &'static str = "/var/lib/nebula";

/// A mount.
#[derive(Debug)]
pub struct MountSpec {
    pub src: String,
    pub target: String,
    pub fstype: String,
    pub data: Option<String>,
}

pub struct MountView {
    pub src: Seq<char>,
    pub target: Seq<char>,
    pub fstype: Seq<char>,
    pub data: Option<Seq<char>>,
}

impl View for MountSpec {
    type V = MountView;

    open spec fn view(&self) -> MountView {
        MountView {
            src: self.src@,
            target: self.target@,
            fstype: self.fstype@,
            data: crate::text::opt_view(self.data),
        }
    }
}

pub open spec fn mount_views(v: Seq<MountSpec>) -> Seq<MountView> {
    v.map_values(|m: MountSpec| m@)
}

pub open spec fn mount_of(
    src: Seq<char>,
    target: Seq<char>,
    fstype: Seq<char>,
    data: Option<Seq<char>>,
) -> MountView {
    MountView { src, target, fstype, data }
}

/// What is mounted before anything else.
pub open spec fn pseudo_mounts_of() -> Seq<MountView> {
    seq![
        mount_of("proc"@, "/proc"@, "proc"@, None),
        mount_of("sysfs"@, "/sys"@, "sysfs"@, None),
        mount_of("devtmpfs"@, "/dev"@, "devtmpfs"@, None),
        mount_of("devpts"@, "/dev/pts"@, "devpts"@, Some("mode=0620,ptmxmode=0666"@)),
        mount_of("tmpfs"@, "/run"@, "tmpfs"@, Some("mode=0755"@)),
        mount_of("tmpfs"@, "/tmp"@, "tmpfs"@, None),
        mount_of("cgroup2"@, "/sys/fs/cgroup"@, "cgroup2"@, None),
        mount_of("binfmt_misc"@, "/proc/sys/fs/binfmt_misc"@, "binfmt_misc"@, None),
    ]
}

fn push_mount(out: &mut Vec<MountSpec>, src: &str, target: &str, fstype: &str, data: Option<&str>)
    ensures
        mount_views(final(out)@) == mount_views(old(out)@).push(
            mount_of(
                src@,
                target@,
                fstype@,
                match data {
                    Some(d) => Some(d@),
                    None => None,
                },
            ),
        ),
{
    let ghost before = mount_views(out@);
    let ghost dv = match data {
        Some(d) => Some(d@),
        None => None,
    };
    let d: Option<String> = match data {
        Some(d) => Some(owned(d)),
        None => None,
    };
    out.push(MountSpec { src: owned(src), target: owned(target), fstype: owned(fstype), data: d });
    assert(mount_views(out@) =~= before.push(mount_of(src@, target@, fstype@, dv)));
}

/// What is mounted before anything else, in this order.
pub fn mount_pseudo() -> (r: Vec<MountSpec>)
    ensures
        mount_views(r@) == pseudo_mounts_of(),
{
    let mut out: Vec<MountSpec> = Vec::new();
    push_mount(&mut out, "proc", "/proc", "proc", None);
    push_mount(&mut out, "sysfs", "/sys", "sysfs", None);
    push_mount(&mut out, "devtmpfs", "/dev", "devtmpfs", None);
    push_mount(&mut out, "devpts", "/dev/pts", "devpts", Some("mode=0620,ptmxmode=0666"));
    push_mount(&mut out, "tmpfs", "/run", "tmpfs", Some("mode=0755"));
    push_mount(&mut out, "tmpfs", "/tmp", "tmpfs", None);
    push_mount(&mut out, "cgroup2", "/sys/fs/cgroup", "cgroup2", None);
    push_mount(&mut out, "binfmt_misc", "/proc/sys/fs/binfmt_misc", "binfmt_misc", None);
    assert(mount_views(out@) =~= pseudo_mounts_of());
    out
}

/// The consoles to try, in order: those that libkrun calls its standard
/// output, then the first virtual console. A port is its device and its name.
pub open spec fn consoles(ports: Seq<(Seq<char>, Seq<char>)>) -> Seq<Seq<char>>
    decreases ports.len(),
{
    if ports.len() == 0 {
        Seq::empty()
    } else {
        let before = consoles(ports.drop_last());
        if crate::text::trimmed(ports.last().1) == "krun-stdout"@ {
            before.push("/dev/"@ + ports.last().0)
        } else {
            before
        }
    }
}

pub open spec fn pair_views(v: Seq<(String, String)>) -> Seq<(Seq<char>, Seq<char>)> {
    v.map_values(|p: (String, String)| (p.0@, p.1@))
}

pub fn attach_console(ports: &Vec<(String, String)>) -> (r: Vec<String>)
    ensures
        crate::text::views(r@) == consoles(pair_views(ports@)).push("/dev/hvc0"@),
{
    let ghost all = pair_views(ports@);
    let mut out: Vec<String> = Vec::new();
    let mut i: usize = 0;
    proof {
        assert(all.take(0) =~= Seq::empty());
        assert(crate::text::views(out@) =~= Seq::empty());
    }
    while i < ports.len()
        invariant
            i <= ports@.len(),
            all == pair_views(ports@),
            crate::text::views(out@) == consoles(all.take(i as int)),
        decreases ports@.len() - i,
    {
        let ghost longer = all.take(i as int + 1);
        proof {
            assert(longer.drop_last() =~= all.take(i as int));
            assert(longer.last() == (ports@[i as int].0@, ports@[i as int].1@));
        }
        if same(trim(ports[i].1.as_str()).as_str(), "krun-stdout") {
            push_line(&mut out, cat2("/dev/", ports[i].0.as_str()));
        }
        i = i + 1;
    }
    assert(all.take(ports@.len() as int) =~= all);
    push_line(&mut out, owned("/dev/hvc0"));
    out
}

/// What is done with the data disk.
#[derive(Debug, Clone, Copy, PartialEq, Eq, Structural)]
pub enum DataDo {
    /// There is none.
    Skip,
    /// It holds a filesystem.
    Mount,
    /// It is blank.
    FormatAndMount,
}

/// Decide on the data disk, from the two bytes where ext4 has its mark; none
/// where they could not be read.
pub fn setup_data_disk(there: bool, magic: &Option<(u8, u8)>) -> (d: DataDo)
    ensures
        d == setup_of(there, *magic),
{
    if !there {
        return DataDo::Skip;
    }
    match magic {
        Some((a, b)) => if *a == 0x53 && *b == 0xef {
            DataDo::Mount
        } else {
            DataDo::FormatAndMount
        },
        None => DataDo::FormatAndMount,
    }
}

/// A disk that carries a filesystem is never formatted.
pub proof fn a_filesystem_is_never_formatted(there: bool)
    ensures
        setup_of(there, Some((0x53u8, 0xefu8))) != DataDo::FormatAndMount,
{
}

/// What is done with a data disk.
pub open spec fn setup_of(there: bool, magic: Option<(u8, u8)>) -> DataDo {
    if !there {
        DataDo::Skip
    } else if magic == Some((0x53u8, 0xefu8)) {
        DataDo::Mount
    } else {
        DataDo::FormatAndMount
    }
}

/// How a line of a boot begins, by what was booted.
pub fn boot_line(vessel: bool, version: &str, uname: &str) -> (s: String)
    ensures
        s@ == (if vessel {
            "NEBULA_VESSEL_UP init="@
        } else {
            "NEBULA_SPIKE_OK init="@
        }) + version@ + " uname="@ + uname@,
{
    let start: &str = if vessel {
        "NEBULA_VESSEL_UP init="
    } else {
        "NEBULA_SPIKE_OK init="
    };
    cat4(start, version, " uname=", uname)
}

/// The programs to start in a vessel: the agent, and beside it the display
/// bridge where the root file system carries it.
pub fn programs(display: bool) -> (r: Vec<String>)
    ensures
        crate::text::views(r@) == (if display {
            seq!["/usr/bin/vessel-agent"@, "/usr/bin/vessel-display"@]
        } else {
            seq!["/usr/bin/vessel-agent"@]
        }),
{
    let mut r: Vec<String> = Vec::new();
    push_line(&mut r, owned(AGENT_PATH));
    if display {
        push_line(&mut r, owned(DISPLAY_PATH));
        assert(crate::text::views(r@) =~= seq![
            "/usr/bin/vessel-agent"@,
            "/usr/bin/vessel-display"@,
        ]);
    } else {
        assert(crate::text::views(r@) =~= seq!["/usr/bin/vessel-agent"@]);
    }
    r
}

/// What follows a process that ended.
#[derive(Debug, Clone, Copy, PartialEq, Eq, Structural)]
pub enum ReapDo {
    /// The agent ended: start it again.
    Restart,
    /// There is no process to wait for: try again a little later.
    Pause,
    /// Another process ended.
    Nothing,
}

/// Look after the agent; a process without a parent ends here too.
pub fn reaped(pid: i32, agent: i32) -> (d: ReapDo)
    ensures
        d == (if pid == agent {
            ReapDo::Restart
        } else if pid < 0 {
            ReapDo::Pause
        } else {
            ReapDo::Nothing
        }),
{
    if pid == agent {
        ReapDo::Restart
    } else if pid < 0 {
        ReapDo::Pause
    } else {
        ReapDo::Nothing
    }
}

/// The data disk is mounted where there is one, and formatted before just where
/// it does not bear the mark of a filesystem.
pub proof fn what_becomes_of_a_data_disk(there: bool, magic: Option<(u8, u8)>)
    ensures
        setup_of(there, magic) is Skip <==> !there,
        setup_of(there, magic) is Mount <==> there && (magic matches Some((lo, hi)) && hi * 256
            + lo == 0xef53),
        setup_of(there, magic) is FormatAndMount <==> there && !(magic matches Some((lo, hi)) && hi
            * 256 + lo == 0xef53),
{
}

/// What is mounted below a place is mounted after it.
pub proof fn mounts_come_in_order()
    ensures
        ({
            let m = pseudo_mounts_of();
            &&& m.len() == 8
            &&& m[0].target == "/proc"@ && m[1].target == "/sys"@ && m[2].target == "/dev"@
            &&& m[3].target == "/dev/pts"@ && m[3].fstype == "devpts"@
            &&& m[4].target == "/run"@ && m[5].target == "/tmp"@ && m[4].fstype == "tmpfs"@
                && m[5].fstype == "tmpfs"@
            &&& m[6].target == "/sys/fs/cgroup"@ && m[6].fstype == "cgroup2"@
            &&& m[7].target == "/proc/sys/fs/binfmt_misc"@
        }),
{
}

/// A port is a console just where it is called libkrun's standard output.
pub proof fn which_ports_are_consoles(ports: Seq<(Seq<char>, Seq<char>)>, p: (Seq<char>, Seq<char>))
    ensures
        crate::text::trimmed(p.1) == "krun-stdout"@ ==> consoles(ports.push(p)) == consoles(
            ports,
        ).push("/dev/"@ + p.0),
        crate::text::trimmed(p.1) != "krun-stdout"@ ==> consoles(ports.push(p)) == consoles(ports),
        consoles(Seq::empty()) == Seq::<Seq<char>>::empty(),
{
    assert(ports.push(p).drop_last() =~= ports);
}

} // verus!

//! Declarative description of a VM, and the checks that hold for every backend.

use crate::error::{Error, ErrorView};
use crate::text::{cat3, list_has, owned, to_chars};
use vstd::prelude::*;

verus! {

/// Declarative description of a VM. Paths are host paths.
#[derive(Debug)]
pub struct VmSpec {
    pub name: String,
    pub cpus: u32,
    pub mem_mib: u64,
    pub boot: BootSpec,
    pub disks: Vec<DiskSpec>,
    pub shares: Vec<ShareSpec>,
    pub net: NetSpec,
    /// Attach a virtio-vsock device (host and guest control channel).
    pub vsock: bool,
    pub console: ConsoleSpec,
    /// Attach a memory balloon device.
    pub balloon: bool,
    /// Attach an entropy device.
    pub rng: bool,
    /// Attach Apple's Rosetta directory share (VZ only).
    pub rosetta: bool,
    /// Attach a virtio-gpu with Venus support (libkrun only).
    pub gpu: bool,
    /// Where the worker serves its control socket.
    pub control_path: Option<String>,
    /// Machine state to resume from instead of booting.
    pub restore_path: Option<String>,
    /// Host unix socket and guest vsock port maps.
    pub vsock_ports: Vec<VsockPortMap>,
    pub backend: Option<String>,
    pub mac: Option<String>,
    pub machine_id: Option<String>,
}

#[derive(Debug)]
pub struct VsockPortMap {
    pub port: u32,
    pub host_path: String,
}

#[derive(Debug)]
pub enum BootSpec {
    /// Direct kernel boot: uncompressed kernel and optional initramfs.
    Kernel { kernel: String, initramfs: Option<String>, cmdline: String },
}

#[derive(Debug)]
pub struct DiskSpec {
    pub path: String,
    pub read_only: bool,
}

/// virtiofs directory share.
#[derive(Debug)]
pub struct ShareSpec {
    /// Mount tag that the guest uses.
    pub tag: String,
    pub host_path: String,
    pub read_only: bool,
}

#[derive(Debug, Clone, Copy, PartialEq, Eq, Structural)]
pub enum NetSpec {
    /// No network device.
    Off,
    /// NAT through the host.
    Nat,
}

#[derive(Debug)]
pub enum ConsoleSpec {
    /// No console.
    Off,
    /// Append kernel console output to a host file.
    File(String),
}

/// What looking at the host's file system found: the regular files and the
/// directories among the paths that were looked up.
#[derive(Debug)]
pub struct HostFs {
    pub files: Vec<String>,
    pub dirs: Vec<String>,
}

impl HostFs {
    pub open spec fn has_file(self, path: Seq<char>) -> bool {
        crate::text::views(self.files@).contains(path)
    }

    pub open spec fn has_dir(self, path: Seq<char>) -> bool {
        crate::text::views(self.dirs@).contains(path)
    }

    pub fn is_file(&self, path: &str) -> (r: bool)
        ensures
            r == self.has_file(path@),
    {
        list_has(&self.files, path)
    }

    pub fn is_dir(&self, path: &str) -> (r: bool)
        ensures
            r == self.has_dir(path@),
    {
        list_has(&self.dirs, path)
    }
}

pub struct DiskView {
    pub path: Seq<char>,
    pub read_only: bool,
}

pub struct ShareView {
    pub tag: Seq<char>,
    pub host_path: Seq<char>,
    pub read_only: bool,
}

pub struct PortView {
    pub port: u32,
    pub host_path: Seq<char>,
}

/// A VM's description as its mathematical content.
pub struct SpecView {
    pub name: Seq<char>,
    pub cpus: u32,
    pub mem_mib: u64,
    pub kernel: Seq<char>,
    pub initramfs: Option<Seq<char>>,
    pub cmdline: Seq<char>,
    pub disks: Seq<DiskView>,
    pub shares: Seq<ShareView>,
    pub net: NetSpec,
    pub vsock: bool,
    pub console: Option<Seq<char>>,
    pub balloon: bool,
    pub rng: bool,
    pub rosetta: bool,
    pub gpu: bool,
    pub control_path: Option<Seq<char>>,
    pub restore_path: Option<Seq<char>>,
    pub vsock_ports: Seq<PortView>,
    pub backend: Option<Seq<char>>,
    pub mac: Option<Seq<char>>,
    pub machine_id: Option<Seq<char>>,
}

impl View for DiskSpec {
    type V = DiskView;

    open spec fn view(&self) -> DiskView {
        DiskView { path: self.path@, read_only: self.read_only }
    }
}

impl View for ShareSpec {
    type V = ShareView;

    open spec fn view(&self) -> ShareView {
        ShareView { tag: self.tag@, host_path: self.host_path@, read_only: self.read_only }
    }
}

impl View for VsockPortMap {
    type V = PortView;

    open spec fn view(&self) -> PortView {
        PortView { port: self.port, host_path: self.host_path@ }
    }
}

pub open spec fn disk_views(v: Seq<DiskSpec>) -> Seq<DiskView> {
    v.map_values(|d: DiskSpec| d@)
}

pub open spec fn share_views(v: Seq<ShareSpec>) -> Seq<ShareView> {
    v.map_values(|d: ShareSpec| d@)
}

pub open spec fn port_views(v: Seq<VsockPortMap>) -> Seq<PortView> {
    v.map_values(|d: VsockPortMap| d@)
}

impl View for VmSpec {
    type V = SpecView;

    open spec fn view(&self) -> SpecView {
        SpecView {
            name: self.name@,
            cpus: self.cpus,
            mem_mib: self.mem_mib,
            kernel: self.boot->kernel@,
            initramfs: crate::text::opt_view(self.boot->initramfs),
            cmdline: self.boot->cmdline@,
            disks: disk_views(self.disks@),
            shares: share_views(self.shares@),
            net: self.net,
            vsock: self.vsock,
            console: match self.console {
                ConsoleSpec::Off => None,
                ConsoleSpec::File(p) => Some(p@),
            },
            balloon: self.balloon,
            rng: self.rng,
            rosetta: self.rosetta,
            gpu: self.gpu,
            control_path: crate::text::opt_view(self.control_path),
            restore_path: crate::text::opt_view(self.restore_path),
            vsock_ports: port_views(self.vsock_ports@),
            backend: crate::text::opt_view(self.backend),
            mac: crate::text::opt_view(self.mac),
            machine_id: crate::text::opt_view(self.machine_id),
        }
    }
}

/// Letters, digits, hyphens and underscores.
pub open spec fn name_char(c: char) -> bool {
    'a' <= c <= 'z' || 'A' <= c <= 'Z' || '0' <= c <= '9' || c == '-' || c == '_'
}

/// A name of at least one such character and no others.
pub open spec fn plain_name(s: Seq<char>) -> bool {
    s.len() > 0 && forall|i: int| 0 <= i < s.len() ==> name_char(#[trigger] s[i])
}

pub fn is_name_char(c: char) -> (r: bool)
    ensures
        r == name_char(c),
{
    ('a' <= c && c <= 'z') || ('A' <= c && c <= 'Z') || ('0' <= c && c <= '9') || c == '-' || c
        == '_'
}

pub fn is_plain_name(s: &str) -> (r: bool)
    ensures
        r == plain_name(s@),
{
    let v: Vec<char> = to_chars(s);
    if v.len() == 0 {
        return false;
    }
    let mut i: usize = 0;
    while i < v.len()
        invariant
            v@ == s@,
            i <= v@.len(),
            forall|j: int| 0 <= j < i ==> name_char(#[trigger] s@[j]),
        decreases v@.len() - i,
    {
        if !is_name_char(v[i]) {
            assert(!name_char(s@[i as int]));
            return false;
        }
        i = i + 1;
    }
    true
}

/// The first path of the list that is not among the host's files.
pub open spec fn first_missing_disk(disks: Seq<DiskView>, fs: HostFs) -> Option<Seq<char>>
    decreases disks.len(),
{
    if disks.len() == 0 {
        None
    } else if !fs.has_file(disks[0].path) {
        Some(disks[0].path)
    } else {
        first_missing_disk(disks.skip(1), fs)
    }
}

/// The first share whose path is not among the host's directories.
pub open spec fn first_missing_share(shares: Seq<ShareView>, fs: HostFs) -> Option<Seq<char>>
    decreases shares.len(),
{
    if shares.len() == 0 {
        None
    } else if !fs.has_dir(shares[0].host_path) {
        Some(shares[0].host_path)
    } else {
        first_missing_share(shares.skip(1), fs)
    }
}

fn missing_disk(disks: &Vec<DiskSpec>, fs: &HostFs) -> (r: Option<String>)
    ensures
        crate::text::opt_view(r) == first_missing_disk(disk_views(disks@), *fs),
{
    let ghost dv = disk_views(disks@);
    let mut i: usize = 0;
    assert(dv.skip(0) =~= dv);
    while i < disks.len()
        invariant
            i <= disks@.len(),
            dv == disk_views(disks@),
            first_missing_disk(dv.skip(i as int), *fs) == first_missing_disk(dv, *fs),
        decreases disks@.len() - i,
    {
        let ghost cur = dv.skip(i as int);
        assert(cur[0] == disks@[i as int]@);
        assert(cur.skip(1) =~= dv.skip(i as int + 1));
        if !fs.is_file(disks[i].path.as_str()) {
            return Some(owned(disks[i].path.as_str()));
        }
        i = i + 1;
    }
    None
}

fn missing_share(shares: &Vec<ShareSpec>, fs: &HostFs) -> (r: Option<String>)
    ensures
        crate::text::opt_view(r) == first_missing_share(share_views(shares@), *fs),
{
    let ghost sv = share_views(shares@);
    let mut i: usize = 0;
    assert(sv.skip(0) =~= sv);
    while i < shares.len()
        invariant
            i <= shares@.len(),
            sv == share_views(shares@),
            first_missing_share(sv.skip(i as int), *fs) == first_missing_share(sv, *fs),
        decreases shares@.len() - i,
    {
        let ghost cur = sv.skip(i as int);
        assert(cur[0] == shares@[i as int]@);
        assert(cur.skip(1) =~= sv.skip(i as int + 1));
        if !fs.is_dir(shares[i].host_path.as_str()) {
            return Some(owned(shares[i].host_path.as_str()));
        }
        i = i + 1;
    }
    None
}

impl SpecView {
    /// What is wrong with the description, if anything; the first of: no CPU,
    /// too little memory, a bad name, then a kernel, initramfs, disk or shared
    /// directory that the host lacks.
    pub open spec fn problem(self, fs: HostFs) -> Option<ErrorView> {
        if self.cpus == 0 {
            Some(ErrorView::InvalidSpec("cpus must be >= 1"@))
        } else if self.mem_mib < 64 {
            Some(ErrorView::InvalidSpec("mem_mib must be >= 64"@))
        } else if !plain_name(self.name) {
            Some(
                ErrorView::InvalidSpec(
                    "name `"@ + self.name + "` must be non-empty [a-zA-Z0-9_-]"@,
                ),
            )
        } else if !fs.has_file(self.kernel) {
            Some(ErrorView::FileNotFound(self.kernel))
        } else if self.initramfs is Some && !fs.has_file(self.initramfs->0) {
            Some(ErrorView::FileNotFound(self.initramfs->0))
        } else if first_missing_disk(self.disks, fs) is Some {
            Some(ErrorView::FileNotFound(first_missing_disk(self.disks, fs)->0))
        } else if first_missing_share(self.shares, fs) is Some {
            Some(ErrorView::FileNotFound(first_missing_share(self.shares, fs)->0))
        } else {
            None
        }
    }
}

impl VmSpec {
    /// Validate what holds for every backend.
    pub fn validate(&self, fs: &HostFs) -> (r: Result<(), Error>)
        ensures
            match r {
                Ok(_) => self@.problem(*fs) is None,
                Err(e) => self@.problem(*fs) == Some(e@),
            },
    {
        if self.cpus == 0 {
            return Err(Error::InvalidSpec(owned("cpus must be >= 1")));
        }
        if self.mem_mib < 64 {
            return Err(Error::InvalidSpec(owned("mem_mib must be >= 64")));
        }
        if !is_plain_name(self.name.as_str()) {
            return Err(
                Error::InvalidSpec(
                    cat3("name `", self.name.as_str(), "` must be non-empty [a-zA-Z0-9_-]"),
                ),
            );
        }
        let BootSpec::Kernel { kernel, initramfs, cmdline: _ } = &self.boot;
        if !fs.is_file(kernel.as_str()) {
            return Err(Error::FileNotFound(owned(kernel.as_str())));
        }
        match initramfs {
            Some(initrd) => {
                if !fs.is_file(initrd.as_str()) {
                    return Err(Error::FileNotFound(owned(initrd.as_str())));
                }
            },
            None => {},
        }
        match missing_disk(&self.disks, fs) {
            Some(path) => {
                return Err(Error::FileNotFound(path));
            },
            None => {},
        }
        match missing_share(&self.shares, fs) {
            Some(path) => {
                return Err(Error::FileNotFound(path));
            },
            None => {},
        }
        Ok(())
    }
}

/// A description with nothing wrong with it has a CPU, at least 64 MiB, a plain
/// name, and only existing files, disks and shared directories.
pub proof fn valid_means_everything_exists(s: SpecView, fs: HostFs)
    ensures
        s.problem(fs) is None == (s.cpus >= 1 && s.mem_mib >= 64 && plain_name(s.name)
            && fs.has_file(s.kernel) && (s.initramfs is Some ==> fs.has_file(s.initramfs->0)) && (
        forall|i: int| 0 <= i < s.disks.len() ==> fs.has_file(#[trigger] s.disks[i].path)) && (
        forall|i: int| 0 <= i < s.shares.len() ==> fs.has_dir(#[trigger] s.shares[i].host_path))),
{
    lemma_missing_disk(s.disks, fs);
    lemma_missing_share(s.shares, fs);
}

proof fn lemma_missing_disk(disks: Seq<DiskView>, fs: HostFs)
    ensures
        first_missing_disk(disks, fs) is None == (forall|i: int|
            0 <= i < disks.len() ==> fs.has_file(#[trigger] disks[i].path)),
    decreases disks.len(),
{
    if disks.len() > 0 {
        let rest = disks.skip(1);
        lemma_missing_disk(rest, fs);
        if forall|i: int| 0 <= i < disks.len() ==> fs.has_file(#[trigger] disks[i].path) {
            assert forall|i: int| 0 <= i < rest.len() implies fs.has_file(#[trigger] rest[i].path) by {
                assert(rest[i] == disks[i + 1]);
            }
        }
        if first_missing_disk(disks, fs) is None {
            assert forall|i: int| 0 <= i < disks.len() implies fs.has_file(
                #[trigger] disks[i].path,
            ) by {
                if i > 0 {
                    assert(disks[i] == rest[i - 1]);
                }
            }
        }
    }
}

proof fn lemma_missing_share(shares: Seq<ShareView>, fs: HostFs)
    ensures
        first_missing_share(shares, fs) is None == (forall|i: int|
            0 <= i < shares.len() ==> fs.has_dir(#[trigger] shares[i].host_path)),
    decreases shares.len(),
{
    if shares.len() > 0 {
        let rest = shares.skip(1);
        lemma_missing_share(rest, fs);
        if forall|i: int| 0 <= i < shares.len() ==> fs.has_dir(#[trigger] shares[i].host_path) {
            assert forall|i: int| 0 <= i < rest.len() implies fs.has_dir(
                #[trigger] rest[i].host_path,
            ) by {
                assert(rest[i] == shares[i + 1]);
            }
        }
        if first_missing_share(shares, fs) is None {
            assert forall|i: int| 0 <= i < shares.len() implies fs.has_dir(
                #[trigger] shares[i].host_path,
            ) by {
                if i > 0 {
                    assert(shares[i] == rest[i - 1]);
                }
            }
        }
    }
}

/// A file that is reported missing is one that the description names and the
/// host lacks.
pub proof fn what_is_missing_is_missing(s: SpecView, fs: HostFs, p: Seq<char>)
    requires
        s.problem(fs) == Some(ErrorView::FileNotFound(p)),
    ensures
        (p == s.kernel && !fs.has_file(p)) || (s.initramfs == Some(p) && !fs.has_file(p)) || (
        exists|i: int| 0 <= i < s.disks.len() && #[trigger] s.disks[i].path == p && !fs.has_file(p))
            || (exists|i: int|
            0 <= i < s.shares.len() && #[trigger] s.shares[i].host_path == p && !fs.has_dir(p)),
{
    lemma_which_disk(s.disks, fs);
    lemma_which_share(s.shares, fs);
}

proof fn lemma_which_disk(disks: Seq<DiskView>, fs: HostFs)
    ensures
        first_missing_disk(disks, fs) matches Some(p) ==> exists|i: int|
            0 <= i < disks.len() && #[trigger] disks[i].path == p && !fs.has_file(p),
    decreases disks.len(),
{
    if disks.len() > 0 {
        let rest = disks.skip(1);
        lemma_which_disk(rest, fs);
        if !fs.has_file(disks[0].path) {
            assert(disks[0].path == first_missing_disk(disks, fs)->0);
        } else if let Some(p) = first_missing_disk(rest, fs) {
            let i = choose|i: int|
                0 <= i < rest.len() && #[trigger] rest[i].path == p && !fs.has_file(p);
            assert(disks[i + 1].path == p);
        }
    }
}

proof fn lemma_which_share(shares: Seq<ShareView>, fs: HostFs)
    ensures
        first_missing_share(shares, fs) matches Some(p) ==> exists|i: int|
            0 <= i < shares.len() && #[trigger] shares[i].host_path == p && !fs.has_dir(p),
    decreases shares.len(),
{
    if shares.len() > 0 {
        let rest = shares.skip(1);
        lemma_which_share(rest, fs);
        if !fs.has_dir(shares[0].host_path) {
            assert(shares[0].host_path == first_missing_share(shares, fs)->0);
        } else if let Some(p) = first_missing_share(rest, fs) {
            let i = choose|i: int|
                0 <= i < rest.len() && #[trigger] rest[i].host_path == p && !fs.has_dir(p);
            assert(shares[i + 1].host_path == p);
        }
    }
}

/// A description with no CPU, with less than 64 MiB or with a name that is none
/// is refused as such, whatever the host has.
pub proof fn a_bad_description_is_refused(s: SpecView, fs: HostFs)
    ensures
        s.cpus == 0 || s.mem_mib < 64 || !plain_name(s.name) ==> s.problem(fs) is Some
            && s.problem(fs)->0 is InvalidSpec,
        s.cpus >= 1 && s.mem_mib >= 64 && plain_name(s.name) && s.problem(fs) is Some
            ==> s.problem(fs)->0 is FileNotFound,
{
}

} // verus!

//! libkrun backend: microVMs in worker processes.
//!
//! Entering a libkrun VM takes over the calling process, so every microVM runs
//! in a worker. What the worker tells libkrun, in which order, and what it
//! answers on its control socket is decided here; the calls are the worker's.

use crate::backend::{VmState, WorkerControl, WorkerReply};
use crate::error::{Error, ErrorView};
use crate::paths::{join, joined_path};
use crate::spec::{
    BootSpec, ConsoleSpec, DiskSpec, DiskView, HostFs, NetSpec, PortView, ShareSpec, ShareView,
    SpecView, VmSpec, VsockPortMap,
};
use crate::text::{
    cat2, cat3, decimal_str, opt_owned, owned, parse_hex_byte, signed_str, split_char,
};
use vstd::prelude::*;

verus! {

/// Where the worker runs.
#[derive(Debug, Clone, Copy, PartialEq, Eq, Structural)]
pub enum Os {
    Macos,
    Linux,
    Windows,
}

pub open spec fn near_exe_candidates(os: Os) -> Seq<Seq<char>> {
    match os {
        Os::Macos => seq![
            "Frameworks/libkrun.dylib"@,
            "lib/libkrun.dylib"@,
            "third_party/libkrun/target/release/libkrun.1.18.0.dylib"@,
        ],
        Os::Linux => seq![
            "lib/libkrun.so.1"@,
            "third_party/libkrun/target/release/libkrun.so"@,
            "third_party/libkrun/target/release/libkrun.so.1.18.0"@,
        ],
        Os::Windows => seq![
            "krun.dll"@,
            "lib/krun.dll"@,
            "third_party/libkrun/target/release/krun.dll"@,
        ],
    }
}

pub open spec fn system_candidates(os: Os) -> Seq<Seq<char>> {
    match os {
        Os::Macos => seq![
            "/opt/homebrew/opt/libkrun-efi/lib/libkrun-efi.dylib"@,
            "/opt/homebrew/lib/libkrun-efi.dylib"@,
            "/opt/homebrew/lib/libkrun.dylib"@,
            "/usr/local/lib/libkrun.dylib"@,
        ],
        Os::Linux => seq![
            "/usr/local/lib64/libkrun.so.1"@,
            "/usr/local/lib/libkrun.so.1"@,
            "/usr/lib64/libkrun.so.1"@,
            "/usr/lib/libkrun.so.1"@,
        ],
        Os::Windows => Seq::empty(),
    }
}

fn near_exe(os: Os) -> (v: Vec<&'static str>)
    ensures
        v@.map_values(|s: &str| s@) == near_exe_candidates(os),
{
    let v: Vec<&'static str> = match os {
        Os::Macos => vec![
            "Frameworks/libkrun.dylib",
            "lib/libkrun.dylib",
            "third_party/libkrun/target/release/libkrun.1.18.0.dylib",
        ],
        Os::Linux => vec![
            "lib/libkrun.so.1",
            "third_party/libkrun/target/release/libkrun.so",
            "third_party/libkrun/target/release/libkrun.so.1.18.0",
        ],
        Os::Windows => vec![
            "krun.dll",
            "lib/krun.dll",
            "third_party/libkrun/target/release/krun.dll",
        ],
    };
    assert(v@.map_values(|s: &str| s@) =~= near_exe_candidates(os));
    v
}

fn in_system(os: Os) -> (v: Vec<&'static str>)
    ensures
        v@.map_values(|s: &str| s@) == system_candidates(os),
{
    let v: Vec<&'static str> = match os {
        Os::Macos => vec![
            "/opt/homebrew/opt/libkrun-efi/lib/libkrun-efi.dylib",
            "/opt/homebrew/lib/libkrun-efi.dylib",
            "/opt/homebrew/lib/libkrun.dylib",
            "/usr/local/lib/libkrun.dylib",
        ],
        Os::Linux => vec![
            "/usr/local/lib64/libkrun.so.1",
            "/usr/local/lib/libkrun.so.1",
            "/usr/lib64/libkrun.so.1",
            "/usr/lib/libkrun.so.1",
        ],
        Os::Windows => Vec::new(),
    };
    assert(v@.map_values(|s: &str| s@) =~= system_candidates(os));
    v
}

/// The first of the paths that is a file.
pub open spec fn first_file(paths: Seq<Seq<char>>, fs: HostFs) -> Option<Seq<char>>
    decreases paths.len(),
{
    if paths.len() == 0 {
        None
    } else if fs.has_file(paths[0]) {
        Some(paths[0])
    } else {
        first_file(paths.skip(1), fs)
    }
}

fn find_file(paths: &Vec<String>, fs: &HostFs) -> (r: Option<String>)
    ensures
        crate::text::opt_view(r) == first_file(crate::text::views(paths@), *fs),
{
    let ghost pv = crate::text::views(paths@);
    let mut i: usize = 0;
    assert(pv.skip(0) =~= pv);
    while i < paths.len()
        invariant
            i <= paths@.len(),
            pv == crate::text::views(paths@),
            first_file(pv.skip(i as int), *fs) == first_file(pv, *fs),
        decreases paths@.len() - i,
    {
        let ghost cur = pv.skip(i as int);
        assert(cur[0] == paths@[i as int]@);
        assert(cur.skip(1) =~= pv.skip(i as int + 1));
        if fs.is_file(paths[i].as_str()) {
            return Some(owned(paths[i].as_str()));
        }
        i = i + 1;
    }
    None
}

/// Each relative path below the directory.
pub open spec fn below(dir: Seq<char>, rels: Seq<Seq<char>>) -> Seq<Seq<char>> {
    rels.map_values(|r: Seq<char>| joined_path(dir, r))
}

/// All candidates near the running binary: the directories above it, nearest
/// first, each with the relative paths in their order.
pub open spec fn near_paths(dirs: Seq<Seq<char>>, rels: Seq<Seq<char>>) -> Seq<Seq<char>>
    decreases dirs.len(),
{
    if dirs.len() == 0 {
        Seq::empty()
    } else {
        near_paths(dirs.drop_last(), rels) + below(dirs.last(), rels)
    }
}

/// Where the library is looked for, in order.
pub open spec fn dylib_candidates(ancestors: Seq<Seq<char>>, os: Os) -> Seq<Seq<char>> {
    near_paths(ancestors, near_exe_candidates(os)) + system_candidates(os)
}

fn push_below(out: &mut Vec<String>, dir: &str, rels: &Vec<&'static str>)
    ensures
        crate::text::views(final(out)@) == crate::text::views(old(out)@) + below(
            dir@,
            rels@.map_values(|s: &str| s@),
        ),
{
    let ghost before = crate::text::views(out@);
    let ghost all = below(dir@, rels@.map_values(|s: &str| s@));
    let mut i: usize = 0;
    assert(crate::text::views(out@) =~= before + all.take(0));
    while i < rels.len()
        invariant
            i <= rels@.len(),
            all == below(dir@, rels@.map_values(|s: &str| s@)),
            crate::text::views(out@) == before + all.take(i as int),
        decreases rels@.len() - i,
    {
        let ghost now = crate::text::views(out@);
        let p: String = join(dir, rels[i]);
        let ghost pv = p@;
        out.push(p);
        proof {
            assert(all[i as int] == pv);
            assert(crate::text::views(out@) =~= now.push(pv));
            assert(now.push(pv) =~= before + all.take(i as int + 1));
        }
        i = i + 1;
    }
    assert(all.take(rels@.len() as int) =~= all);
}

/// Where the library may lie, in the order in which it is looked for.
pub fn candidate_paths(ancestors: &Vec<String>, os: Os) -> (out: Vec<String>)
    ensures
        crate::text::views(out@) == dylib_candidates(crate::text::views(ancestors@), os),
{
    let rels: Vec<&'static str> = near_exe(os);
    let ghost av = crate::text::views(ancestors@);
    let mut out: Vec<String> = Vec::new();
    let mut i: usize = 0;
    assert(av.take(0) =~= Seq::empty());
    assert(crate::text::views(out@) =~= Seq::empty());
    while i < ancestors.len()
        invariant
            i <= ancestors@.len(),
            av == crate::text::views(ancestors@),
            rels@.map_values(|s: &str| s@) == near_exe_candidates(os),
            crate::text::views(out@) == near_paths(av.take(i as int), near_exe_candidates(os)),
        decreases ancestors@.len() - i,
    {
        proof {
            let longer = av.take(i as int + 1);
            assert(longer.drop_last() =~= av.take(i as int));
            assert(longer.last() == ancestors@[i as int]@);
        }
        push_below(&mut out, ancestors[i].as_str(), &rels);
        i = i + 1;
    }
    assert(av.take(ancestors@.len() as int) =~= av);
    let sys: Vec<&'static str> = in_system(os);
    let ghost sv = sys@.map_values(|s: &str| s@);
    let ghost head = crate::text::views(out@);
    let mut k: usize = 0;
    assert(crate::text::views(out@) =~= head + sv.take(0));
    while k < sys.len()
        invariant
            k <= sys@.len(),
            sv == sys@.map_values(|s: &str| s@),
            crate::text::views(out@) == head + sv.take(k as int),
        decreases sys@.len() - k,
    {
        let ghost now = crate::text::views(out@);
        out.push(owned(sys[k]));
        proof {
            assert(crate::text::views(out@) =~= now.push(sv[k as int]));
            assert(now.push(sv[k as int]) =~= head + sv.take(k as int + 1));
        }
        k = k + 1;
    }
    assert(sv.take(sys@.len() as int) =~= sv);
    out
}

/// The library to load. An override must be a file; otherwise the first
/// candidate that is one.
pub fn dylib_path(overridden: &Option<String>, ancestors: &Vec<String>, os: Os, fs: &HostFs) -> (r:
    Result<String, Error>)
    ensures
        match *overridden {
            Some(p) => match r {
                Ok(q) => fs.has_file(p@) && q@ == p@,
                Err(e) => !fs.has_file(p@) && e@ == ErrorView::FileNotFound(p@),
            },
            None => {
                let found = first_file(dylib_candidates(crate::text::views(ancestors@), os), *fs);
                match r {
                    Ok(q) => found == Some(q@),
                    Err(e) => found is None && e@ == ErrorView::BackendUnavailable(
                        "krun"@,
                        "libkrun dylib not found (brew install slp/krunkit/libkrun-efi, or set NEBULA_LIBKRUN_PATH)"@,
                    ),
                }
            },
        },
{
    match overridden {
        Some(p) => {
            if fs.is_file(p.as_str()) {
                Ok(owned(p.as_str()))
            } else {
                Err(Error::FileNotFound(owned(p.as_str())))
            }
        },
        None => {
            let paths: Vec<String> = candidate_paths(ancestors, os);
            match find_file(&paths, fs) {
                Some(p) => Ok(p),
                None => Err(
                    Error::BackendUnavailable(
                        owned("krun"),
                        owned(
                            "libkrun dylib not found (brew install slp/krunkit/libkrun-efi, or set NEBULA_LIBKRUN_PATH)",
                        ),
                    ),
                ),
            }
        },
    }
}

/// The libkrun backend.
#[derive(Debug, Clone, Copy, PartialEq, Eq, Structural)]
pub struct KrunBackend;

impl KrunBackend {
    pub fn new() -> (b: KrunBackend)
        ensures
            b == KrunBackend,
    {
        KrunBackend
    }
}

/// What is known of a worker process.
#[derive(Debug, Clone, Copy, PartialEq, Eq, Structural)]
pub enum WorkerStatus {
    NotStarted,
    Alive,
    Exited { success: bool },
    /// The system would not say.
    Unknown,
}

/// The state of the VM in the worker.
pub fn worker_state(status: WorkerStatus) -> (s: VmState)
    ensures
        s == (match status {
            WorkerStatus::NotStarted => VmState::Created,
            WorkerStatus::Alive => VmState::Running,
            WorkerStatus::Exited { success } => if success {
                VmState::Stopped
            } else {
                VmState::Failed
            },
            WorkerStatus::Unknown => VmState::Failed,
        }),
{
    match status {
        WorkerStatus::NotStarted => VmState::Created,
        WorkerStatus::Alive => VmState::Running,
        WorkerStatus::Exited { success } => if success {
            VmState::Stopped
        } else {
            VmState::Failed
        },
        WorkerStatus::Unknown => VmState::Failed,
    }
}

/// The first map of the port.
pub open spec fn host_socket(ports: Seq<PortView>, port: u32) -> Option<Seq<char>>
    decreases ports.len(),
{
    if ports.len() == 0 {
        None
    } else if ports[0].port == port {
        Some(ports[0].host_path)
    } else {
        host_socket(ports.skip(1), port)
    }
}

/// The host socket that reaches a guest port. libkrun maps guest ports to host
/// sockets, so to connect to a port is to connect to its socket.
pub fn vsock_path(ports: &Vec<VsockPortMap>, port: u32) -> (r: Result<String, Error>)
    ensures
        ({
            let found = host_socket(crate::spec::port_views(ports@), port);
            match r {
                Ok(p) => found == Some(p@),
                Err(e) => found is None && e@ == (ErrorView::Backend {
                    backend: "krun"@,
                    message: "vsock:"@ + crate::text::decimal(port as nat)
                        + ": no host socket mapped for this port"@,
                }),
            }
        }),
{
    let ghost pv = crate::spec::port_views(ports@);
    let mut i: usize = 0;
    assert(pv.skip(0) =~= pv);
    while i < ports.len()
        invariant
            i <= ports@.len(),
            pv == crate::spec::port_views(ports@),
            host_socket(pv.skip(i as int), port) == host_socket(pv, port),
        decreases ports@.len() - i,
    {
        let ghost cur = pv.skip(i as int);
        assert(cur[0] == ports@[i as int]@);
        assert(cur.skip(1) =~= pv.skip(i as int + 1));
        if ports[i].port == port {
            return Ok(owned(ports[i].host_path.as_str()));
        }
        i = i + 1;
    }
    let n: String = decimal_str(port as u64);
    let message: String = cat3("vsock:", n.as_str(), ": no host socket mapped for this port");
    Err(Error::backend("krun", message.as_str()))
}

/// Sidecars have no balloon.
pub fn balloon_set_guest_mib() -> (e: Error)
    ensures
        e@ == (ErrorView::Backend {
            backend: "krun"@,
            message: "balloon not supported on krun sidecars yet"@,
        }),
{
    Error::backend("krun", "balloon not supported on krun sidecars yet")
}

/// `passt` in each directory of a search path.
pub open spec fn passt_candidates(path: Seq<char>) -> Seq<Seq<char>> {
    crate::text::split_on(path, ':').map_values(|d: Seq<char>| joined_path(d, "passt"@))
}

/// Find the external network proxy: an override, the search path, then the
/// user's own binaries.
pub fn passt_path(overridden: &Option<String>, path: &str, home: &Option<String>, fs: &HostFs) -> (r:
    Option<String>)
    ensures
        crate::text::opt_view(r) == (match *overridden {
            Some(p) => if fs.has_file(p@) {
                Some(p@)
            } else {
                None
            },
            None => match first_file(passt_candidates(path@), *fs) {
                Some(p) => Some(p),
                None => match *home {
                    Some(h) => if fs.has_file(joined_path(h@, ".local/bin/passt"@)) {
                        Some(joined_path(h@, ".local/bin/passt"@))
                    } else {
                        None
                    },
                    None => None,
                },
            },
        }),
{
    match overridden {
        Some(p) => {
            return if fs.is_file(p.as_str()) {
                Some(owned(p.as_str()))
            } else {
                None
            };
        },
        None => {},
    }
    let dirs: Vec<String> = split_char(path, ':');
    let ghost all = passt_candidates(path@);
    let mut paths: Vec<String> = Vec::new();
    let mut i: usize = 0;
    assert(crate::text::views(paths@) =~= all.take(0));
    while i < dirs.len()
        invariant
            i <= dirs@.len(),
            all == passt_candidates(path@),
            crate::text::views(dirs@) == crate::text::split_on(path@, ':'),
            crate::text::views(paths@) == all.take(i as int),
        decreases dirs@.len() - i,
    {
        let ghost now = crate::text::views(paths@);
        let p: String = join(dirs[i].as_str(), "passt");
        let ghost pv = p@;
        paths.push(p);
        proof {
            assert(crate::text::views(dirs@)[i as int] == dirs@[i as int]@);
            assert(all[i as int] == pv);
            assert(crate::text::views(paths@) =~= now.push(pv));
            assert(now.push(pv) =~= all.take(i as int + 1));
        }
        i = i + 1;
    }
    proof {
        assert(crate::text::views(dirs@).len() == dirs@.len());
        assert(all.take(dirs@.len() as int) =~= all);
    }
    match find_file(&paths, fs) {
        Some(p) => Some(p),
        None => match home {
            Some(h) => {
                let local: String = join(h.as_str(), ".local/bin/passt");
                if fs.is_file(local.as_str()) {
                    Some(local)
                } else {
                    None
                }
            },
            None => None,
        },
    }
}

/// The bytes of an address written in hexadecimal; none where one is no byte.
pub open spec fn mac_bytes(parts: Seq<Seq<char>>) -> Option<Seq<u8>>
    decreases parts.len(),
{
    if parts.len() == 0 {
        Some(Seq::empty())
    } else {
        match (mac_bytes(parts.drop_last()), crate::text::hex_byte(parts.last())) {
            (Some(b), Some(n)) => Some(b.push(n as u8)),
            _ => None,
        }
    }
}

/// A MAC address: six bytes with colons between them.
pub open spec fn mac_of(s: Seq<char>) -> Option<Seq<u8>> {
    let parts = crate::text::split_on(s, ':');
    if parts.len() == 6 {
        mac_bytes(parts)
    } else {
        None
    }
}

proof fn lemma_mac_fails(parts: Seq<Seq<char>>, n: int)
    requires
        0 <= n <= parts.len(),
        mac_bytes(parts.take(n)) is None,
    ensures
        mac_bytes(parts) is None,
    decreases parts.len(),
{
    if n == parts.len() {
        assert(parts.take(n) =~= parts);
    } else {
        assert(parts.drop_last().take(n) =~= parts.take(n));
        lemma_mac_fails(parts.drop_last(), n);
    }
}

/// Read a MAC address.
pub fn parse_mac(mac: &Option<String>) -> (r: Option<Vec<u8>>)
    ensures
        match r {
            Some(b) => b@.len() == 6 && mac is Some && mac_of(mac->0@) == Some(b@),
            None => mac is None || mac_of(mac->0@) is None,
        },
{
    let text: &String = match mac {
        Some(m) => m,
        None => {
            return None;
        },
    };
    let parts: Vec<String> = split_char(text.as_str(), ':');
    let ghost pv = crate::text::views(parts@);
    if parts.len() != 6 {
        assert(pv.len() == parts@.len());
        return None;
    }
    let mut out: Vec<u8> = Vec::new();
    let mut i: usize = 0;
    assert(pv.take(0) =~= Seq::empty());
    assert(out@ =~= Seq::empty());
    while i < parts.len()
        invariant
            i <= parts@.len(),
            parts@.len() == 6,
            pv == crate::text::views(parts@),
            pv == crate::text::split_on(text@, ':'),
            out@.len() == i,
            mac is Some && mac->0 == *text,
            mac_bytes(pv.take(i as int)) == Some(out@),
        decreases parts@.len() - i,
    {
        let ghost longer = pv.take(i as int + 1);
        proof {
            assert(longer.drop_last() =~= pv.take(i as int));
            assert(longer.last() == parts@[i as int]@);
        }
        match parse_hex_byte(parts[i].as_str()) {
            Some(b) => {
                out.push(b);
            },
            None => {
                proof {
                    lemma_mac_fails(pv, i as int + 1);
                }
                return None;
            },
        }
        i = i + 1;
    }
    assert(pv.take(6) =~= pv);
    Some(out)
}

/// The address of a guest whose description names none.
pub open spec fn default_mac() -> Seq<u8> {
    seq![0x5au8, 0x94, 0xef, 0xe4, 0x0c, 0xee]
}

// What a worker tells libkrun.

/// What the loaded library can do.
#[derive(Debug, Clone, Copy, PartialEq, Eq, Structural)]
pub struct Features {
    pub disks: bool,
    pub virtiofs: bool,
    pub gpu: bool,
    pub net_unixstream: bool,
    pub net_usernet: bool,
    pub restore: bool,
}

/// What the worker's surroundings say.
#[derive(Debug)]
pub struct Surroundings {
    pub debug: bool,
    /// The user insists on the external proxy.
    pub force_passt: bool,
    pub windows: bool,
    /// How the guest's kernel is packed.
    pub kernel_format: u32,
    /// The external proxy, if it was found.
    pub passt: Option<String>,
}

/// A call to libkrun, or what stands between two calls.
#[derive(Debug)]
pub enum KrunCall {
    SetLogLevel(u32),
    CreateCtx,
    SetVmConfig { cpus: u8, mem_mib: u32 },
    SetKernel { kernel: String, format: u32, initramfs: Option<String>, cmdline: String },
    /// Create the file, with the directories above it, for the console.
    AddConsole(String),
    AddNetUsernet(Vec<u8>),
    /// Start the external proxy and connect it.
    AddNetPasst { passt: String, mac: Vec<u8> },
    AddDisk { id: String, path: String, read_only: bool },
    AddVirtiofs { tag: String, path: String },
    /// Remove a stale socket, then map the port.
    AddVsockPort { port: u32, path: String },
    SetGpuOptions(u32),
    SetRestore(String),
    /// Serve the control socket beside the VM.
    ServeControl(String),
    StartEnter,
}

pub enum CallView {
    SetLogLevel(u32),
    CreateCtx,
    SetVmConfig { cpus: u8, mem_mib: u32 },
    SetKernel {
        kernel: Seq<char>,
        format: u32,
        initramfs: Option<Seq<char>>,
        cmdline: Seq<char>,
    },
    AddConsole(Seq<char>),
    AddNetUsernet(Seq<u8>),
    AddNetPasst { passt: Seq<char>, mac: Seq<u8> },
    AddDisk { id: Seq<char>, path: Seq<char>, read_only: bool },
    AddVirtiofs { tag: Seq<char>, path: Seq<char> },
    AddVsockPort { port: u32, path: Seq<char> },
    SetGpuOptions(u32),
    SetRestore(Seq<char>),
    ServeControl(Seq<char>),
    StartEnter,
}

impl View for KrunCall {
    type V = CallView;

    open spec fn view(&self) -> CallView {
        match self {
            KrunCall::SetLogLevel(n) => CallView::SetLogLevel(*n),
            KrunCall::CreateCtx => CallView::CreateCtx,
            KrunCall::SetVmConfig { cpus, mem_mib } => CallView::SetVmConfig {
                cpus: *cpus,
                mem_mib: *mem_mib,
            },
            KrunCall::SetKernel { kernel, format, initramfs, cmdline } => CallView::SetKernel {
                kernel: kernel@,
                format: *format,
                initramfs: crate::text::opt_view(*initramfs),
                cmdline: cmdline@,
            },
            KrunCall::AddConsole(p) => CallView::AddConsole(p@),
            KrunCall::AddNetUsernet(m) => CallView::AddNetUsernet(m@),
            KrunCall::AddNetPasst { passt, mac } => CallView::AddNetPasst {
                passt: passt@,
                mac: mac@,
            },
            KrunCall::AddDisk { id, path, read_only } => CallView::AddDisk {
                id: id@,
                path: path@,
                read_only: *read_only,
            },
            KrunCall::AddVirtiofs { tag, path } => CallView::AddVirtiofs {
                tag: tag@,
                path: path@,
            },
            KrunCall::AddVsockPort { port, path } => CallView::AddVsockPort {
                port: *port,
                path: path@,
            },
            KrunCall::SetGpuOptions(n) => CallView::SetGpuOptions(*n),
            KrunCall::SetRestore(p) => CallView::SetRestore(p@),
            KrunCall::ServeControl(p) => CallView::ServeControl(p@),
            KrunCall::StartEnter => CallView::StartEnter,
        }
    }
}

pub open spec fn call_views(v: Seq<KrunCall>) -> Seq<CallView> {
    v.map_values(|c: KrunCall| c@)
}

/// virglrenderer: Venus, no virgl, threaded sync, external blobs.
pub const GPU_FLAGS: u32 = 226;

/// A part of the configuration: the calls it takes, or the calls up to where
/// something is missing, and what.
pub struct Part {
    pub calls: Seq<CallView>,
    pub missing: Option<Seq<char>>,
}

impl Part {
    /// One part after the other; what is missing ends it.
    pub open spec fn followed_by(self, next: Part) -> Part {
        if self.missing is Some {
            self
        } else {
            Part { calls: self.calls + next.calls, missing: next.missing }
        }
    }
}

pub open spec fn just(calls: Seq<CallView>) -> Part {
    Part { calls, missing: None }
}

pub open spec fn lacking(what: Seq<char>) -> Part {
    Part { calls: Seq::empty(), missing: Some(what) }
}

pub open spec fn wanted_mac(s: SpecView) -> Seq<u8> {
    match s.mac {
        Some(m) => match mac_of(m) {
            Some(b) => b,
            None => default_mac(),
        },
        None => default_mac(),
    }
}

/// Log level, context, CPUs (at most 255) and memory (modulo 2^32), kernel.
pub open spec fn machine_part(s: SpecView, e: Surroundings) -> Part {
    just(
        seq![
            CallView::SetLogLevel(if e.debug { 3 } else { 0 }),
            CallView::CreateCtx,
            CallView::SetVmConfig {
                cpus: if s.cpus < 255 { s.cpus as u8 } else { 255 },
                mem_mib: (s.mem_mib % 0x1_0000_0000) as u32,
            },
            CallView::SetKernel {
                kernel: s.kernel,
                format: e.kernel_format,
                initramfs: s.initramfs,
                cmdline: s.cmdline,
            },
        ],
    )
}

pub open spec fn console_part(s: SpecView) -> Part {
    match s.console {
        Some(p) => just(seq![CallView::AddConsole(p)]),
        None => just(Seq::empty()),
    }
}

/// Network: in-process NAT, unless the library lacks it or the user insists on
/// the external proxy, which Windows does not have.
pub open spec fn net_part(s: SpecView, f: Features, e: Surroundings) -> Part {
    let mac = wanted_mac(s);
    if s.net != NetSpec::Nat {
        just(Seq::empty())
    } else if !e.force_passt && f.net_usernet {
        just(seq![CallView::AddNetUsernet(mac)])
    } else if e.windows {
        lacking("NetSpec::Nat on Windows needs a krun.dll built with NET=1 (usernet)"@)
    } else if !f.net_unixstream {
        lacking("NetSpec::Nat needs a libkrun built with NET=1"@)
    } else {
        match e.passt {
            None => lacking(
                "passt not found (apt/brew install passt, or set NEBULA_PASST_PATH)"@,
            ),
            Some(p) => just(seq![CallView::AddNetPasst { passt: p@, mac }]),
        }
    }
}

pub open spec fn disk_calls(disks: Seq<DiskView>) -> Seq<CallView> {
    disks.map(
        |i: int, d: DiskView|
            CallView::AddDisk {
                id: "disk"@ + crate::text::decimal(i as nat),
                path: d.path,
                read_only: d.read_only,
            },
    )
}

pub open spec fn disk_part(s: SpecView, f: Features) -> Part {
    if s.disks.len() == 0 {
        just(Seq::empty())
    } else if !f.disks {
        lacking("this libkrun build lacks block devices (rebuild with BLK=1)"@)
    } else {
        just(disk_calls(s.disks))
    }
}

pub open spec fn share_calls(shares: Seq<ShareView>) -> Seq<CallView> {
    shares.map_values(|d: ShareView| CallView::AddVirtiofs { tag: d.tag, path: d.host_path })
}

pub open spec fn share_part(s: SpecView, f: Features) -> Part {
    if s.shares.len() == 0 {
        just(Seq::empty())
    } else if !f.virtiofs {
        lacking("this libkrun build lacks virtiofs (unix-only)"@)
    } else {
        just(share_calls(s.shares))
    }
}

pub open spec fn port_calls(ports: Seq<PortView>) -> Seq<CallView> {
    ports.map_values(|m: PortView| CallView::AddVsockPort { port: m.port, path: m.host_path })
}

pub open spec fn gpu_part(s: SpecView, f: Features) -> Part {
    if !s.gpu {
        just(Seq::empty())
    } else if !f.gpu {
        lacking("this libkrun build lacks GPU support (rebuild with GPU=1)"@)
    } else {
        just(seq![CallView::SetGpuOptions(GPU_FLAGS)])
    }
}

pub open spec fn restore_part(s: SpecView, f: Features) -> Part {
    match s.restore_path {
        None => just(Seq::empty()),
        Some(p) => if !f.restore {
            lacking("this libkrun build lacks snapshot restore (krun_set_restore)"@)
        } else {
            just(seq![CallView::SetRestore(p)])
        },
    }
}

pub open spec fn control_part(s: SpecView) -> Part {
    match s.control_path {
        Some(p) => just(seq![CallView::ServeControl(p)]),
        None => just(Seq::empty()),
    }
}

/// The whole configuration of a VM, up to entering it. The devices come in a
/// fixed order: a saved state is applied to devices created in that order.
pub open spec fn configuration(s: SpecView, f: Features, e: Surroundings) -> Part {
    machine_part(s, e).followed_by(console_part(s)).followed_by(net_part(s, f, e)).followed_by(
        disk_part(s, f),
    ).followed_by(share_part(s, f)).followed_by(just(port_calls(s.vsock_ports))).followed_by(
        gpu_part(s, f),
    ).followed_by(restore_part(s, f)).followed_by(control_part(s)).followed_by(
        just(seq![CallView::StartEnter]),
    )
}

/// What a worker does: the calls, in order, each of which must succeed before
/// the next; then, if something is missing, the error.
#[derive(Debug)]
pub struct WorkerPlan {
    pub calls: Vec<KrunCall>,
    pub missing: Option<Error>,
}

impl WorkerPlan {
    pub open spec fn is(self, p: Part) -> bool {
        &&& call_views(self.calls@) == p.calls
        &&& match self.missing {
            Some(e) => p.missing is Some && e@ == (ErrorView::Backend {
                backend: "krun"@,
                message: p.missing->0,
            }),
            None => p.missing is None,
        }
    }
}

fn add_call(plan: &mut WorkerPlan, call: KrunCall, Ghost(part): Ghost<Part>)
    requires
        old(plan).is(part),
        part.missing is None,
    ensures
        final(plan).is(part.followed_by(just(seq![call@]))),
{
    let ghost before = call_views(plan.calls@);
    plan.calls.push(call);
    assert(call_views(plan.calls@) =~= before + seq![call@]);
}

fn stop_at(plan: &mut WorkerPlan, what: &str, Ghost(part): Ghost<Part>)
    requires
        old(plan).is(part),
        part.missing is None,
    ensures
        final(plan).is(part.followed_by(lacking(what@))),
{
    plan.missing = Some(Error::backend("krun", what));
    assert(part.calls + Seq::<CallView>::empty() =~= part.calls);
}

fn net_mac(mac: &Option<String>) -> (m: Vec<u8>)
    ensures
        m@ == (match crate::text::opt_view(*mac) {
            Some(t) => match mac_of(t) {
                Some(b) => b,
                None => default_mac(),
            },
            None => default_mac(),
        }),
{
    match parse_mac(mac) {
        Some(b) => b,
        None => {
            let m: Vec<u8> = vec![0x5a, 0x94, 0xef, 0xe4, 0x0c, 0xee];
            assert(m@ =~= default_mac());
            m
        },
    }
}

fn add_machine(spec: &VmSpec, e: &Surroundings) -> (plan: WorkerPlan)
    ensures
        plan.is(machine_part(spec@, *e)),
{
    let BootSpec::Kernel { kernel, initramfs, cmdline } = &spec.boot;
    let calls: Vec<KrunCall> = vec![
        KrunCall::SetLogLevel(if e.debug { 3 } else { 0 }),
        KrunCall::CreateCtx,
        KrunCall::SetVmConfig {
            cpus: if spec.cpus < 255 { spec.cpus as u8 } else { 255 },
            mem_mib: (spec.mem_mib % 0x1_0000_0000) as u32,
        },
        KrunCall::SetKernel {
            kernel: owned(kernel.as_str()),
            format: e.kernel_format,
            initramfs: opt_owned(initramfs),
            cmdline: owned(cmdline.as_str()),
        },
    ];
    assert(call_views(calls@) =~= machine_part(spec@, *e).calls);
    WorkerPlan { calls, missing: None }
}

fn add_net(plan: &mut WorkerPlan, spec: &VmSpec, f: Features, e: &Surroundings, Ghost(part): Ghost<
    Part,
>)
    requires
        old(plan).is(part),
        part.missing is None,
    ensures
        final(plan).is(part.followed_by(net_part(spec@, f, *e))),
{
    assert(part.calls + Seq::<CallView>::empty() =~= part.calls);
    if spec.net != NetSpec::Nat {
        return;
    }
    let mac: Vec<u8> = net_mac(&spec.mac);
    if !e.force_passt && f.net_usernet {
        add_call(plan, KrunCall::AddNetUsernet(mac), Ghost(part));
        return;
    }
    if e.windows {
        stop_at(
            plan,
            "NetSpec::Nat on Windows needs a krun.dll built with NET=1 (usernet)",
            Ghost(part),
        );
        return;
    }
    if !f.net_unixstream {
        stop_at(plan, "NetSpec::Nat needs a libkrun built with NET=1", Ghost(part));
        return;
    }
    match &e.passt {
        None => {
            stop_at(
                plan,
                "passt not found (apt/brew install passt, or set NEBULA_PASST_PATH)",
                Ghost(part),
            );
        },
        Some(p) => {
            add_call(plan, KrunCall::AddNetPasst { passt: owned(p.as_str()), mac }, Ghost(part));
        },
    }
}

fn add_disks(plan: &mut WorkerPlan, disks: &Vec<DiskSpec>, f: Features, Ghost(part): Ghost<Part>, Ghost(
s): Ghost<SpecView>)
    requires
        old(plan).is(part),
        part.missing is None,
        s.disks == crate::spec::disk_views(disks@),
    ensures
        final(plan).is(part.followed_by(disk_part(s, f))),
{
    assert(part.calls + Seq::<CallView>::empty() =~= part.calls);
    if disks.len() == 0 {
        return;
    }
    if !f.disks {
        stop_at(
            plan,
            "this libkrun build lacks block devices (rebuild with BLK=1)",
            Ghost(part),
        );
        return;
    }
    let ghost all = disk_calls(s.disks);
    let mut i: usize = 0;
    assert(call_views(plan.calls@) =~= part.calls + all.take(0));
    while i < disks.len()
        invariant
            i <= disks@.len(),
            s.disks == crate::spec::disk_views(disks@),
            all == disk_calls(s.disks),
            plan.missing is None,
            call_views(plan.calls@) == part.calls + all.take(i as int),
        decreases disks@.len() - i,
    {
        let ghost now = call_views(plan.calls@);
        let n: String = decimal_str(i as u64);
        let call = KrunCall::AddDisk {
            id: cat2("disk", n.as_str()),
            path: owned(disks[i].path.as_str()),
            read_only: disks[i].read_only,
        };
        let ghost cv = call@;
        plan.calls.push(call);
        proof {
            assert(s.disks[i as int] == disks@[i as int]@);
            assert(all[i as int] == cv);
            assert(call_views(plan.calls@) =~= now.push(cv));
            assert(now.push(cv) =~= part.calls + all.take(i as int + 1));
        }
        i = i + 1;
    }
    assert(all.take(disks@.len() as int) =~= all);
}

fn add_shares(plan: &mut WorkerPlan, shares: &Vec<ShareSpec>, f: Features, Ghost(part): Ghost<Part>, Ghost(
s): Ghost<SpecView>)
    requires
        old(plan).is(part),
        part.missing is None,
        s.shares == crate::spec::share_views(shares@),
    ensures
        final(plan).is(part.followed_by(share_part(s, f))),
{
    assert(part.calls + Seq::<CallView>::empty() =~= part.calls);
    if shares.len() == 0 {
        return;
    }
    if !f.virtiofs {
        stop_at(plan, "this libkrun build lacks virtiofs (unix-only)", Ghost(part));
        return;
    }
    let ghost all = share_calls(s.shares);
    let mut i: usize = 0;
    assert(call_views(plan.calls@) =~= part.calls + all.take(0));
    while i < shares.len()
        invariant
            i <= shares@.len(),
            s.shares == crate::spec::share_views(shares@),
            all == share_calls(s.shares),
            plan.missing is None,
            call_views(plan.calls@) == part.calls + all.take(i as int),
        decreases shares@.len() - i,
    {
        let ghost now = call_views(plan.calls@);
        let call = KrunCall::AddVirtiofs {
            tag: owned(shares[i].tag.as_str()),
            path: owned(shares[i].host_path.as_str()),
        };
        let ghost cv = call@;
        plan.calls.push(call);
        proof {
            assert(s.shares[i as int] == shares@[i as int]@);
            assert(all[i as int] == cv);
            assert(call_views(plan.calls@) =~= now.push(cv));
            assert(now.push(cv) =~= part.calls + all.take(i as int + 1));
        }
        i = i + 1;
    }
    assert(all.take(shares@.len() as int) =~= all);
}

fn add_ports(plan: &mut WorkerPlan, ports: &Vec<VsockPortMap>, Ghost(part): Ghost<Part>)
    requires
        old(plan).is(part),
        part.missing is None,
    ensures
        final(plan).is(part.followed_by(just(port_calls(crate::spec::port_views(ports@))))),
{
    let ghost pv = crate::spec::port_views(ports@);
    let ghost all = port_calls(pv);
    let mut i: usize = 0;
    assert(call_views(plan.calls@) =~= part.calls + all.take(0));
    while i < ports.len()
        invariant
            i <= ports@.len(),
            pv == crate::spec::port_views(ports@),
            all == port_calls(pv),
            plan.missing is None,
            call_views(plan.calls@) == part.calls + all.take(i as int),
        decreases ports@.len() - i,
    {
        let ghost now = call_views(plan.calls@);
        let call = KrunCall::AddVsockPort {
            port: ports[i].port,
            path: owned(ports[i].host_path.as_str()),
        };
        let ghost cv = call@;
        plan.calls.push(call);
        proof {
            assert(pv[i as int] == ports@[i as int]@);
            assert(all[i as int] == cv);
            assert(call_views(plan.calls@) =~= now.push(cv));
            assert(now.push(cv) =~= part.calls + all.take(i as int + 1));
        }
        i = i + 1;
    }
    assert(all.take(ports@.len() as int) =~= all);
}

/// What the worker of a VM does: configure the microVM and enter it.
pub fn run_worker(spec: &VmSpec, f: Features, e: &Surroundings) -> (plan: WorkerPlan)
    ensures
        plan.is(configuration(spec@, f, *e)),
{
    let ghost s = spec@;
    let mut plan: WorkerPlan = add_machine(spec, e);
    let ghost p1 = machine_part(s, *e);
    let ghost p2 = p1.followed_by(console_part(s));
    match &spec.console {
        ConsoleSpec::File(p) => {
            add_call(&mut plan, KrunCall::AddConsole(owned(p.as_str())), Ghost(p1));
        },
        ConsoleSpec::Off => {
            assert(p1.calls + Seq::<CallView>::empty() =~= p1.calls);
        },
    }
    assert(plan.is(p2));
    let ghost p3 = p2.followed_by(net_part(s, f, *e));
    add_net(&mut plan, spec, f, e, Ghost(p2));
    if plan.missing.is_some() {
        return plan;
    }
    let ghost p4 = p3.followed_by(disk_part(s, f));
    add_disks(&mut plan, &spec.disks, f, Ghost(p3), Ghost(s));
    if plan.missing.is_some() {
        return plan;
    }
    let ghost p5 = p4.followed_by(share_part(s, f));
    add_shares(&mut plan, &spec.shares, f, Ghost(p4), Ghost(s));
    if plan.missing.is_some() {
        return plan;
    }
    let ghost p6 = p5.followed_by(just(port_calls(s.vsock_ports)));
    add_ports(&mut plan, &spec.vsock_ports, Ghost(p5));
    let ghost p7 = p6.followed_by(gpu_part(s, f));
    if spec.gpu {
        if !f.gpu {
            stop_at(
                &mut plan,
                "this libkrun build lacks GPU support (rebuild with GPU=1)",
                Ghost(p6),
            );
            return plan;
        }
        add_call(&mut plan, KrunCall::SetGpuOptions(GPU_FLAGS), Ghost(p6));
    } else {
        assert(p6.calls + Seq::<CallView>::empty() =~= p6.calls);
    }
    assert(plan.is(p7));
    let ghost p8 = p7.followed_by(restore_part(s, f));
    match &spec.restore_path {
        Some(p) => {
            if !f.restore {
                stop_at(
                    &mut plan,
                    "this libkrun build lacks snapshot restore (krun_set_restore)",
                    Ghost(p7),
                );
                return plan;
            }
            add_call(&mut plan, KrunCall::SetRestore(owned(p.as_str())), Ghost(p7));
        },
        None => {
            assert(p7.calls + Seq::<CallView>::empty() =~= p7.calls);
        },
    }
    assert(plan.is(p8));
    let ghost p9 = p8.followed_by(control_part(s));
    match &spec.control_path {
        Some(p) => {
            add_call(&mut plan, KrunCall::ServeControl(owned(p.as_str())), Ghost(p8));
        },
        None => {
            assert(p8.calls + Seq::<CallView>::empty() =~= p8.calls);
        },
    }
    assert(plan.is(p9));
    add_call(&mut plan, KrunCall::StartEnter, Ghost(p9));
    plan
}

/// A call failed if its code is negative.
pub fn check(what: &str, code: i32) -> (r: Result<(), Error>)
    ensures
        match r {
            Ok(_) => code >= 0,
            Err(e) => code < 0 && e@ == (ErrorView::Backend {
                backend: "krun"@,
                message: what@ + " failed: "@ + crate::text::signed(code as int),
            }),
        },
{
    if code < 0 {
        let n: String = signed_str(code);
        let message: String = cat3(what, " failed: ", n.as_str());
        return Err(Error::backend("krun", message.as_str()));
    }
    Ok(())
}

/// The VM is entered exactly when nothing is missing, and then last of all.
pub proof fn entered_only_when_configured(s: SpecView, f: Features, e: Surroundings)
    ensures
        ({
            let c = configuration(s, f, e);
            &&& c.missing is None ==> c.calls.len() > 0 && c.calls.last() == CallView::StartEnter
            &&& c.missing is Some <==> net_part(s, f, e).missing is Some || (s.disks.len() > 0
                && !f.disks) || (s.shares.len() > 0 && !f.virtiofs) || (s.gpu && !f.gpu) || (
            s.restore_path is Some && !f.restore)
        }),
{
}

// The control socket.

/// What the loaded library can do to a running VM.
#[derive(Debug, Clone, Copy, PartialEq, Eq, Structural)]
pub struct CtlFeatures {
    pub pause: bool,
    pub resume: bool,
    pub save: bool,
}

/// A line from the control socket: a request, or why it is none.
#[derive(Debug)]
pub enum CtlLine {
    Request(WorkerControl),
    Bad(String),
}

/// What to do with a line: answer it, or call libkrun first.
#[derive(Debug)]
pub enum CtlStep {
    Reply(WorkerReply),
    Pause,
    Resume,
    Save(String),
}

/// A call that a line led to.
#[derive(Debug, Clone, Copy, PartialEq, Eq, Structural)]
pub enum CtlCall {
    Pause,
    Resume,
    Save,
}

impl CtlCall {
    pub open spec fn name(self) -> Seq<char> {
        match self {
            CtlCall::Pause => "krun_vm_pause"@,
            CtlCall::Resume => "krun_vm_resume"@,
            CtlCall::Save => "krun_vm_save"@,
        }
    }
}

pub open spec fn refused(r: WorkerReply, why: Seq<char>) -> bool {
    !r.ok && crate::text::opt_view(r.error) == Some(why) && r.state is None
}

/// One connection to a worker's control socket.
#[derive(Debug)]
pub struct WorkerCtl {
    paused: bool,
}

/// What is done with a line, of a guest that this connection paused or not.
pub open spec fn line_handled(paused: bool, line: CtlLine, f: CtlFeatures, step: CtlStep) -> bool {
    match line {
        CtlLine::Bad(e) => step matches CtlStep::Reply(r) && refused(
            r,
            "bad control msg: "@ + e@,
        ),
        CtlLine::Request(WorkerControl::Pause) => if f.pause {
            step is Pause
        } else {
            step matches CtlStep::Reply(r) && refused(
                r,
                "this libkrun build has no pause support"@,
            )
        },
        CtlLine::Request(WorkerControl::Resume) => if f.resume {
            step is Resume
        } else {
            step matches CtlStep::Reply(r) && refused(
                r,
                "this libkrun build has no resume support"@,
            )
        },
        CtlLine::Request(WorkerControl::Save { path }) => if f.save {
            step matches CtlStep::Save(p) && p@ == path@
        } else {
            step matches CtlStep::Reply(r) && refused(
                r,
                "this libkrun build has no snapshot-save support"@,
            )
        },
        CtlLine::Request(WorkerControl::State) => step matches CtlStep::Reply(r) && r.ok
            && r.error is None && crate::text::opt_view(r.state) == Some(
            if paused {
                "paused"@
            } else {
                "running"@
            },
        ),
    }
}

/// Whether a guest counts as paused after a call.
pub open spec fn paused_after(was: bool, call: CtlCall, code: i32) -> bool {
    match call {
        CtlCall::Pause => code == 0,
        CtlCall::Resume => was && code != 0,
        CtlCall::Save => was,
    }
}

impl WorkerCtl {
    /// Whether this connection paused the guest and did not resume it.
    pub closed spec fn paused(self) -> bool {
        self.paused
    }

    pub fn new() -> (c: WorkerCtl)
        ensures
            !c.paused(),
    {
        WorkerCtl { paused: false }
    }

    /// What to do with a line. A bad one, and a request that the library has no
    /// call for, are refused; the state is answered at once.
    pub fn line(&self, line: CtlLine, f: CtlFeatures) -> (step: CtlStep)
        ensures
            line_handled(self.paused(), line, f, step),
    {
        match line {
            CtlLine::Bad(e) => CtlStep::Reply(
                refuse(cat2("bad control msg: ", e.as_str()).as_str()),
            ),
            CtlLine::Request(WorkerControl::Pause) => if f.pause {
                CtlStep::Pause
            } else {
                CtlStep::Reply(refuse("this libkrun build has no pause support"))
            },
            CtlLine::Request(WorkerControl::Resume) => if f.resume {
                CtlStep::Resume
            } else {
                CtlStep::Reply(refuse("this libkrun build has no resume support"))
            },
            CtlLine::Request(WorkerControl::Save { path }) => if f.save {
                CtlStep::Save(path)
            } else {
                CtlStep::Reply(refuse("this libkrun build has no snapshot-save support"))
            },
            CtlLine::Request(WorkerControl::State) => CtlStep::Reply(
                WorkerReply {
                    ok: true,
                    error: None,
                    state: Some(owned(if self.paused { "paused" } else { "running" })),
                },
            ),
        }
    }

    /// The answer to a request, from the code that the call came back with.
    /// Zero is success. A pause that fails leaves the guest counted as running,
    /// a resume that fails leaves it as it was.
    pub fn called(&mut self, call: CtlCall, code: i32) -> (r: WorkerReply)
        ensures
            r.ok == (code == 0),
            r.state is None,
            crate::text::opt_view(r.error) == (if code == 0 {
                None
            } else {
                Some(call.name() + " failed: "@ + crate::text::signed(code as int))
            }),
            final(self).paused() == paused_after(old(self).paused(), call, code),
    {
        let name: &str = match call {
            CtlCall::Pause => {
                self.paused = code == 0;
                "krun_vm_pause"
            },
            CtlCall::Resume => {
                if code == 0 {
                    self.paused = false;
                }
                "krun_vm_resume"
            },
            CtlCall::Save => "krun_vm_save",
        };
        if code == 0 {
            return WorkerReply { ok: true, error: None, state: None };
        }
        let n: String = signed_str(code);
        WorkerReply {
            ok: false,
            error: Some(cat3(name, " failed: ", n.as_str())),
            state: None,
        }
    }
}

fn refuse(why: &str) -> (r: WorkerReply)
    ensures
        refused(r, why@),
{
    WorkerReply { ok: false, error: Some(owned(why)), state: None }
}

/// All that a worker does for a description, in order: the log, the context,
/// the size and the kernel; the console, the network, every disk under its
/// number, every share under its tag, every channel at its socket, the GPU, the
/// state to resume, the control socket, each where it is asked for; and last of
/// all it enters the VM.
pub proof fn a_worker_does_what_is_described(s: SpecView, f: Features, e: Surroundings)
    requires
        configuration(s, f, e).missing is None,
    ensures
        configuration(s, f, e).calls == seq![
            CallView::SetLogLevel(
                if e.debug {
                    3
                } else {
                    0
                },
            ),
            CallView::CreateCtx,
            CallView::SetVmConfig {
                cpus: if s.cpus > 255 {
                    255
                } else {
                    s.cpus as u8
                },
                mem_mib: (s.mem_mib % 4294967296) as u32,
            },
            CallView::SetKernel {
                kernel: s.kernel,
                format: e.kernel_format,
                initramfs: s.initramfs,
                cmdline: s.cmdline,
            },
        ] + (match s.console {
            Some(p) => seq![CallView::AddConsole(p)],
            None => seq![],
        }) + (if s.net != NetSpec::Nat {
            seq![]
        } else if f.net_usernet && !e.force_passt {
            seq![CallView::AddNetUsernet(wanted_mac(s))]
        } else {
            seq![CallView::AddNetPasst { passt: e.passt->0@, mac: wanted_mac(s) }]
        }) + Seq::new(
            s.disks.len(),
            |i: int|
                CallView::AddDisk {
                    id: "disk"@ + crate::text::decimal(i as nat),
                    path: s.disks[i].path,
                    read_only: s.disks[i].read_only,
                },
        ) + Seq::new(
            s.shares.len(),
            |i: int|
                CallView::AddVirtiofs { tag: s.shares[i].tag, path: s.shares[i].host_path },
        ) + Seq::new(
            s.vsock_ports.len(),
            |i: int|
                CallView::AddVsockPort {
                    port: s.vsock_ports[i].port,
                    path: s.vsock_ports[i].host_path,
                },
        ) + (if s.gpu {
            seq![CallView::SetGpuOptions(226)]
        } else {
            seq![]
        }) + (match s.restore_path {
            Some(p) => seq![CallView::SetRestore(p)],
            None => seq![],
        }) + (match s.control_path {
            Some(p) => seq![CallView::ServeControl(p)],
            None => seq![],
        }) + seq![CallView::StartEnter],
{
    let d = Seq::new(
        s.disks.len(),
        |i: int|
            CallView::AddDisk {
                id: "disk"@ + crate::text::decimal(i as nat),
                path: s.disks[i].path,
                read_only: s.disks[i].read_only,
            },
    );
    let h = Seq::new(
        s.shares.len(),
        |i: int| CallView::AddVirtiofs { tag: s.shares[i].tag, path: s.shares[i].host_path },
    );
    let p = Seq::new(
        s.vsock_ports.len(),
        |i: int|
            CallView::AddVsockPort {
                port: s.vsock_ports[i].port,
                path: s.vsock_ports[i].host_path,
            },
    );
    assert(disk_part(s, f).calls =~= d);
    assert(share_part(s, f).calls =~= h);
    assert(port_calls(s.vsock_ports) =~= p);
}

/// The external proxy is used just where the user insists on it or the library
/// has no network of its own; it must be there, and so must the library's
/// support for it, and Windows has none.
pub proof fn when_the_network_is_missing(s: SpecView, f: Features, e: Surroundings)
    ensures
        net_part(s, f, e).missing is Some <==> (s.net == NetSpec::Nat && (e.force_passt
            || !f.net_usernet) && (e.windows || !f.net_unixstream || e.passt is None)),
{
}

/// A channel is reached at the socket that its port is mapped to.
pub proof fn a_channel_is_at_its_socket(ports: Seq<PortView>, k: int)
    requires
        0 <= k < ports.len(),
        forall|j: int| 0 <= j < k ==> (#[trigger] ports[j]).port != ports[k].port,
    ensures
        host_socket(ports, ports[k].port) == Some(ports[k].host_path),
        forall|p: u32|
            (forall|j: int| 0 <= j < ports.len() ==> (#[trigger] ports[j]).port != p)
                ==> #[trigger] host_socket(ports, p) is None,
{
    lemma_socket(ports, ports[k].port, k);
    assert forall|p: u32|
        (forall|j: int| 0 <= j < ports.len() ==> (#[trigger] ports[j]).port != p) implies
            #[trigger] host_socket(ports, p) is None by {
        lemma_no_socket(ports, p);
    }
}

proof fn lemma_socket(ports: Seq<PortView>, p: u32, k: int)
    requires
        0 <= k < ports.len(),
        ports[k].port == p,
        forall|j: int| 0 <= j < k ==> (#[trigger] ports[j]).port != p,
    ensures
        host_socket(ports, p) == Some(ports[k].host_path),
    decreases ports.len(),
{
    if k > 0 {
        let rest = ports.skip(1);
        assert(ports[0].port != p);
        assert forall|j: int| 0 <= j < k - 1 implies (#[trigger] rest[j]).port != p by {
            assert(rest[j] == ports[j + 1]);
        }
        lemma_socket(rest, p, k - 1);
    }
}

proof fn lemma_no_socket(ports: Seq<PortView>, p: u32)
    requires
        forall|j: int| 0 <= j < ports.len() ==> (#[trigger] ports[j]).port != p,
    ensures
        host_socket(ports, p) is None,
    decreases ports.len(),
{
    if ports.len() > 0 {
        let rest = ports.skip(1);
        assert(ports[0].port != p);
        assert forall|j: int| 0 <= j < rest.len() implies (#[trigger] rest[j]).port != p by {
            assert(rest[j] == ports[j + 1]);
        }
        lemma_no_socket(rest, p);
    }
}

/// Two hexadecimal digits are read as their byte.
proof fn lemma_byte_reads(x: u8)
    ensures
        crate::text::hex_byte(crate::text::hex_of(seq![x])) == Some(x as nat),
        !crate::text::hex_of(seq![x]).contains(':'),
        crate::text::hex_of(seq![x]).len() == 2,
{
    let s = crate::text::hex_of(seq![x]);
    crate::engine::hex_reads_back(seq![x]);
    reveal_with_fuel(crate::text::hex_of, 2);
    reveal_with_fuel(crate::text::hex_digits_value, 4);
    assert(seq![x].drop_last() =~= Seq::empty());
    assert(s =~= seq![
        crate::text::hex_digit(x as int / 16),
        crate::text::hex_digit(x as int % 16),
    ]);
    assert(s.drop_last() =~= seq![s[0]]);
    assert(seq![s[0]].drop_last() =~= Seq::empty());
    assert(crate::text::hex_value(s[0]) == Some((x as int / 16) as nat));
    assert(crate::text::hex_value(s[1]) == Some((x as int % 16) as nat));
}

/// An address that was minted for a guest is the one that its network gets.
pub proof fn a_minted_address_is_used(s: SpecView, b: Seq<u8>)
    requires
        b.len() == 5,
        s.mac == Some(crate::lifecycle::mac_text(b)),
    ensures
        mac_of(crate::lifecycle::mac_text(b)) == Some(seq![2u8] + b),
        wanted_mac(s) == seq![2u8] + b,
{
    reveal_strlit("02:");
    reveal_strlit(":");
    let m = crate::lifecycle::mac_text(b);
    let h = |x: u8| crate::text::hex_of(seq![x]);
    let z = h(2);
    lemma_byte_reads(2);
    lemma_byte_reads(b[0]);
    lemma_byte_reads(b[1]);
    lemma_byte_reads(b[2]);
    lemma_byte_reads(b[3]);
    lemma_byte_reads(b[4]);
    assert(b.subrange(0, 1) =~= seq![b[0]]);
    assert(b.subrange(1, 2) =~= seq![b[1]]);
    assert(b.subrange(2, 3) =~= seq![b[2]]);
    assert(b.subrange(3, 4) =~= seq![b[3]]);
    assert(b.subrange(4, 5) =~= seq![b[4]]);
    assert(z =~= seq!['0', '2']) by {
        reveal_with_fuel(crate::text::hex_of, 2);
        assert(seq![2u8].drop_last() =~= Seq::empty());
    }
    let r4 = h(b[4]);
    let r3 = h(b[3]).push(':') + r4;
    let r2 = h(b[2]).push(':') + r3;
    let r1 = h(b[1]).push(':') + r2;
    let r0 = h(b[0]).push(':') + r1;
    assert(m =~= z.push(':') + r0);
    crate::text::a_piece_splits_off(r4, r4, ':');
    crate::text::a_piece_splits_off(h(b[3]), r4, ':');
    crate::text::a_piece_splits_off(h(b[2]), r3, ':');
    crate::text::a_piece_splits_off(h(b[1]), r2, ':');
    crate::text::a_piece_splits_off(h(b[0]), r1, ':');
    crate::text::a_piece_splits_off(z, r0, ':');
    let parts = seq![z, h(b[0]), h(b[1]), h(b[2]), h(b[3]), h(b[4])];
    assert(crate::text::split_on(m, ':') =~= parts);
    lemma_six(parts, seq![2u8] + b);
}

proof fn lemma_six(parts: Seq<Seq<char>>, b: Seq<u8>)
    requires
        parts.len() == b.len(),
        forall|i: int|
            0 <= i < parts.len() ==> crate::text::hex_byte(#[trigger] parts[i]) == Some(
                b[i] as nat,
            ),
    ensures
        mac_bytes(parts) == Some(b),
    decreases parts.len(),
{
    if parts.len() == 0 {
        assert(b =~= Seq::empty());
    } else {
        let n = parts.len() - 1;
        let (p, c) = (parts.drop_last(), b.drop_last());
        assert forall|i: int| 0 <= i < p.len() implies crate::text::hex_byte(#[trigger] p[i])
            == Some(c[i] as nat) by {
            assert(p[i] == parts[i]);
        }
        lemma_six(p, c);
        assert(parts.last() == parts[n]);
        assert(c.push(b[n]) =~= b);
    }
}

/// A guest that was paused is told to be paused until it was resumed; a call
/// that the library has not is refused, and one that it has is made.
pub proof fn what_a_worker_is_asked(was: bool, line: CtlLine, f: CtlFeatures, step: CtlStep, code: i32)
    requires
        line_handled(was, line, f, step),
    ensures
        paused_after(was, CtlCall::Pause, 0),
        !paused_after(was, CtlCall::Resume, 0),
        code != 0 ==> !paused_after(was, CtlCall::Pause, code) && paused_after(
            was,
            CtlCall::Resume,
            code,
        ) == was,
        paused_after(was, CtlCall::Save, code) == was,
        step is Pause <==> f.pause && line == CtlLine::Request(WorkerControl::Pause),
        step is Resume <==> f.resume && line == CtlLine::Request(WorkerControl::Resume),
        step is Save <==> f.save && (line matches CtlLine::Request(WorkerControl::Save { .. })),
        line matches CtlLine::Request(WorkerControl::Save { path }) ==> f.save ==> step->Save_0@ == path@,
        line is Bad ==> step is Reply && !step->Reply_0.ok,
        step is Reply ==> (step->Reply_0.ok <==> line == CtlLine::Request(WorkerControl::State)),
        line == CtlLine::Request(WorkerControl::State) ==> crate::text::opt_view(step->Reply_0.state)
            == Some(
            if was {
                "paused"@
            } else {
                "running"@
            },
        ),
{
}

} // verus!

//! Booting a throwaway microVM and looking for its mark on the console.

use crate::bytes::{from_utf8_lossy, read_le32};
use crate::gzip::is_gzip;
use crate::initramfs::{EntryView, InitramfsBuilder};
use crate::paths::{join, joined_path};
use crate::spec::{BootSpec, ConsoleSpec, NetSpec, SpecView, VmSpec};
use crate::text::{cat2, cat3, cat5, contains, decimal_str, lines, owned, push_line, same, trim};
use vstd::prelude::*;

verus! {

/// The kernel that is booted, unless another one is named.
pub const ALPINE_KERNEL_URL: &'static str = "https://dl-cdn.alpinelinux.org/alpine/v3.22/releases/aarch64/netboot/vmlinuz-virt";

/// What the guest writes once it runs.
pub const MARKER: &'static str = "NEBULA_SPIKE_OK";

/// libkrun lays out its guest's memory from a gibibyte upwards.
pub open spec fn krun_floor(mem: u64) -> u64 {
    if mem > 1024 {
        mem
    } else {
        1024
    }
}

pub fn at_least_a_gib(mem: u64) -> (r: u64)
    ensures
        r == krun_floor(mem),
{
    if mem > 1024 {
        mem
    } else {
        1024
    }
}

/// A plain VM without disks and network.
pub open spec fn bare_spec(
    name: Seq<char>,
    cpus: u32,
    mem_mib: u64,
    kernel: Seq<char>,
    initramfs: Seq<char>,
    cmdline: Seq<char>,
    console: Seq<char>,
) -> SpecView {
    SpecView {
        name,
        cpus,
        mem_mib,
        kernel,
        initramfs: Some(initramfs),
        cmdline,
        disks: Seq::empty(),
        shares: Seq::empty(),
        net: NetSpec::Off,
        vsock: false,
        console: Some(console),
        balloon: false,
        rng: true,
        rosetta: false,
        gpu: false,
        control_path: None,
        restore_path: None,
        vsock_ports: Seq::empty(),
        backend: None,
        mac: None,
        machine_id: None,
    }
}

pub(crate) fn make_bare(
    name: &str,
    cpus: u32,
    mem_mib: u64,
    kernel: &str,
    initramfs: &str,
    cmdline: &str,
    console: &str,
) -> (s: VmSpec)
    ensures
        s@ == bare_spec(name@, cpus, mem_mib, kernel@, initramfs@, cmdline@, console@),
        s.disks@.len() == 0,
        s.shares@.len() == 0,
{
    let s = VmSpec {
        name: owned(name),
        cpus,
        mem_mib,
        boot: BootSpec::Kernel {
            kernel: owned(kernel),
            initramfs: Some(owned(initramfs)),
            cmdline: owned(cmdline),
        },
        disks: Vec::new(),
        shares: Vec::new(),
        net: NetSpec::Off,
        vsock: false,
        console: ConsoleSpec::File(owned(console)),
        balloon: false,
        rng: true,
        rosetta: false,
        gpu: false,
        control_path: None,
        restore_path: None,
        vsock_ports: Vec::new(),
        backend: None,
        mac: None,
        machine_id: None,
    };
    assert(s@.disks =~= Seq::empty());
    assert(s@.shares =~= Seq::empty());
    assert(s@.vsock_ports =~= Seq::empty());
    s
}

/// What is booted, and where its console goes.
#[derive(Debug)]
pub struct SpikePlan {
    pub spec: VmSpec,
    pub console_log: String,
    /// What is said before it boots.
    pub line: String,
}

/// Plan the boot on a backend.
pub fn run(run_dir: &str, backend: &str, cpus: u32, mem: u64, kernel: &str, initramfs: &str) -> (p:
    SpikePlan)
    ensures
        ({
            let log = joined_path(run_dir@, "spike-"@ + backend@ + "-console.log"@);
            let mib = if backend@ == "krun"@ {
                krun_floor(mem)
            } else {
                mem
            };
            &&& p.console_log@ == log
            &&& p.spec@ == (SpecView {
                balloon: backend@ == "vz"@,
                ..bare_spec(
                    "spike-"@ + backend@,
                    cpus,
                    mib,
                    kernel@,
                    initramfs@,
                    "console=hvc0 reboot=k panic=-1"@,
                    log,
                )
            })
            &&& p.line@ == "[spike] backend="@ + backend@ + " cpus="@ + crate::text::decimal(
                cpus as nat,
            ) + " mem="@ + crate::text::decimal(mib as nat) + "MiB"@
        }),
{
    let log: String = join(run_dir, cat3("spike-", backend, "-console.log").as_str());
    let mib: u64 = if same(backend, "krun") {
        at_least_a_gib(mem)
    } else {
        mem
    };
    let mut spec: VmSpec = make_bare(
        cat2("spike-", backend).as_str(),
        cpus,
        mib,
        kernel,
        initramfs,
        "console=hvc0 reboot=k panic=-1",
        log.as_str(),
    );
    spec.balloon = same(backend, "vz");
    let mut line: String = cat5(
        "[spike] backend=",
        backend,
        " cpus=",
        decimal_str(cpus as u64).as_str(),
        " mem=",
    );
    line.append(decimal_str(mib).as_str());
    line.append("MiB");
    SpikePlan { spec, console_log: log, line }
}

/// The first line that carries the mark.
pub open spec fn marked(lines: Seq<Seq<char>>, mark: Seq<char>) -> Option<Seq<char>>
    decreases lines.len(),
{
    if lines.len() == 0 {
        None
    } else if crate::text::has_part(lines[0], mark) {
        Some(lines[0])
    } else {
        marked(lines.skip(1), mark)
    }
}

fn find_marked(ls: &Vec<String>, mark: &str) -> (r: Option<String>)
    ensures
        crate::text::opt_view(r) == marked(crate::text::views(ls@), mark@),
{
    let ghost all = crate::text::views(ls@);
    let mut i: usize = 0;
    assert(all.skip(0) =~= all);
    while i < ls.len()
        invariant
            i <= ls@.len(),
            all == crate::text::views(ls@),
            marked(all, mark@) == marked(all.skip(i as int), mark@),
        decreases ls@.len() - i,
    {
        assert(all.skip(i as int)[0] == ls@[i as int]@);
        assert(all.skip(i as int).skip(1) =~= all.skip(i as int + 1));
        if contains(ls[i].as_str(), mark) {
            return Some(owned(ls[i].as_str()));
        }
        i = i + 1;
    }
    assert(all.skip(ls@.len() as int) =~= Seq::empty());
    None
}

/// The last lines, at most so many, each set in.
pub open spec fn last_lines(lines: Seq<Seq<char>>, n: int) -> Seq<Seq<char>> {
    let tail = if lines.len() > n {
        lines.skip(lines.len() - n)
    } else {
        lines
    };
    tail.map_values(|l: Seq<char>| "  "@ + l)
}

fn tail_lines(ls: &Vec<String>, n: usize) -> (r: Vec<String>)
    ensures
        crate::text::views(r@) == last_lines(crate::text::views(ls@), n as int),
{
    let ghost all = crate::text::views(ls@);
    let ghost want = last_lines(all, n as int);
    let len: usize = ls.len();
    let from: usize = if len > n {
        len - n
    } else {
        0
    };
    let mut out: Vec<String> = Vec::new();
    let mut i: usize = from;
    assert(crate::text::views(out@) =~= want.take(0));
    while i < len
        invariant
            from <= i <= len,
            len == ls@.len(),
            all == crate::text::views(ls@),
            from == (if len > n {
                len - n
            } else {
                0
            }),
            want == last_lines(all, n as int),
            want.len() == len - from,
            crate::text::views(out@) == want.take(i - from),
        decreases len - i,
    {
        push_line(&mut out, cat2("  ", ls[i].as_str()));
        proof {
            assert(want[i - from] == "  "@ + ls@[i as int]@);
            assert(want.take(i - from).push(want[i - from]) =~= want.take(i - from + 1));
        }
        i = i + 1;
    }
    assert(want.take(len - from) =~= want);
    out
}

/// What a boot came to.
#[derive(Debug)]
pub struct Verdict {
    pub passed: bool,
    /// What is said of it.
    pub lines: Vec<String>,
    /// The error of a boot that left no mark.
    pub failed: Option<String>,
}

/// Read the console of a guest that has powered off.
pub fn verdict(backend: &str, elapsed: &str, console: &str, console_log: &str) -> (v: Verdict)
    ensures
        ({
            let ls = crate::text::lines_of(console@);
            match marked(ls, "NEBULA_SPIKE_OK"@) {
                Some(line) => v.passed && v.failed is None && crate::text::views(v.lines@) == seq![
                    "SPIKE PASS ["@ + backend@ + "] boot→poweroff "@ + elapsed@,
                    "  guest: "@ + crate::text::trimmed(line),
                    "  console log: "@ + console_log@,
                ],
                None => !v.passed && v.failed is Some && v.failed->0@
                    == "guest booted but no NEBULA_SPIKE_OK marker found (console: "@
                    + console_log@ + ")"@ && crate::text::views(v.lines@) == seq![
                    "--- console output ("@ + crate::text::decimal(
                        vstd::utf8::encode_utf8(console@).len(),
                    ) + " bytes) ---"@,
                ] + last_lines(ls, 20),
            }
        }),
{
    let ls: Vec<String> = lines(console);
    match find_marked(&ls, "NEBULA_SPIKE_OK") {
        Some(line) => {
            let mut out: Vec<String> = Vec::new();
            let mut first: String = cat3("SPIKE PASS [", backend, "] boot→poweroff ");
            first.append(elapsed);
            push_line(&mut out, first);
            push_line(&mut out, cat2("  guest: ", trim(line.as_str()).as_str()));
            push_line(&mut out, cat2("  console log: ", console_log));
            assert(crate::text::views(out@) =~= seq![
                "SPIKE PASS ["@ + backend@ + "] boot→poweroff "@ + elapsed@,
                "  guest: "@ + crate::text::trimmed(line@),
                "  console log: "@ + console_log@,
            ]);
            Verdict { passed: true, lines: out, failed: None }
        },
        None => {
            let bytes: usize = console.as_bytes().len();
            let head: String = cat3(
                "--- console output (",
                decimal_str(bytes as u64).as_str(),
                " bytes) ---",
            );
            let tail: Vec<String> = tail_lines(&ls, 20);
            let ghost tv = crate::text::views(tail@);
            let mut out: Vec<String> = Vec::new();
            push_line(&mut out, head);
            let ghost first = crate::text::views(out@);
            let mut i: usize = 0;
            assert(first + tv.take(0) =~= first);
            while i < tail.len()
                invariant
                    i <= tail@.len(),
                    tv == crate::text::views(tail@),
                    crate::text::views(out@) == first + tv.take(i as int),
                decreases tail@.len() - i,
            {
                push_line(&mut out, owned(tail[i].as_str()));
                assert(first + tv.take(i as int + 1) =~= (first + tv.take(i as int)).push(
                    tail@[i as int]@,
                ));
                i = i + 1;
            }
            assert(tv.take(tail@.len() as int) =~= tv);
            assert(first =~= seq![head@]);
            Verdict {
                passed: false,
                lines: out,
                failed: Some(
                    cat3(
                        "guest booted but no NEBULA_SPIKE_OK marker found (console: ",
                        console_log,
                        ")",
                    ),
                ),
            }
        },
    }
}

// The kernel

/// How a kernel file holds its image.
#[derive(Debug)]
pub enum KernelForm {
    /// It is the image.
    Raw,
    /// The image is packed in these bytes.
    Packed { from: usize, to: usize },
    /// A container with a compression that is not known.
    Unsupported { compression: String },
    /// A container whose payload lies outside of it.
    OutOfBounds,
}

/// The container that holds a packed kernel: "MZ", then "zimg".
pub open spec fn is_zboot(b: Seq<u8>) -> bool {
    b.len() > 0x1c && b[0] == 0x4d && b[1] == 0x5a && b[4] == 0x7a && b[5] == 0x69 && b[6] == 0x6d
        && b[7] == 0x67
}

pub open spec fn is_gzip_name(b: Seq<u8>) -> bool {
    b[0x18] == 0x67 && b[0x19] == 0x7a && b[0x1a] == 0x69 && b[0x1b] == 0x70
}

/// Find the image in a kernel file: a packed file as a whole, the payload of a
/// container, or the file itself.
pub fn kernel_form(bytes: &[u8]) -> (f: KernelForm)
    ensures
        ({
            let b = bytes@;
            let packed = b.len() >= 2 && b[0] == 0x1f && b[1] == 0x8b;
            let off = crate::bytes::from_le32(b, 8);
            let size = crate::bytes::from_le32(b, 12);
            match f {
                KernelForm::Packed { from, to } => from <= to <= b.len() && (if packed {
                    from == 0 && to == b.len()
                } else {
                    is_zboot(b) && is_gzip_name(b) && from == off && to == off + size
                }),
                KernelForm::Unsupported { compression } => !packed && is_zboot(b) && !is_gzip_name(
                    b,
                ) && compression@ == crate::bytes::lossy_text(b.subrange(0x18, 0x1c)),
                KernelForm::OutOfBounds => !packed && is_zboot(b) && is_gzip_name(b) && off + size
                    > b.len(),
                KernelForm::Raw => !packed && !is_zboot(b),
            }
        }),
{
    let n: usize = bytes.len();
    if is_gzip(bytes) {
        return KernelForm::Packed { from: 0, to: n };
    }
    if n > 0x1c && bytes[0] == 0x4d && bytes[1] == 0x5a && bytes[4] == 0x7a && bytes[5] == 0x69
        && bytes[6] == 0x6d && bytes[7] == 0x67 {
        let off: u64 = read_le32(bytes, 8) as u64;
        let size: u64 = read_le32(bytes, 12) as u64;
        let gzip: bool = bytes[0x18] == 0x67 && bytes[0x19] == 0x7a && bytes[0x1a] == 0x69
            && bytes[0x1b] == 0x70;
        if !gzip {
            let name: &[u8] = vstd::slice::slice_subrange(bytes, 0x18, 0x1c);
            return KernelForm::Unsupported { compression: from_utf8_lossy(name) };
        }
        if off + size > n as u64 {
            return KernelForm::OutOfBounds;
        }
        return KernelForm::Packed { from: off as usize, to: (off + size) as usize };
    }
    KernelForm::Raw
}

/// Whether bytes are an uncompressed arm64 kernel: its mark stands at 0x38.
pub fn is_arm64_image(raw: &[u8]) -> (r: bool)
    ensures
        r == (raw@.len() >= 0x40 && raw@[0x38] == 0x41 && raw@[0x39] == 0x52 && raw@[0x3a] == 0x4d
            && raw@[0x3b] == 0x64),
{
    raw.len() >= 0x40 && raw[0x38] == 0x41 && raw[0x39] == 0x52 && raw[0x3a] == 0x4d && raw[0x3b]
        == 0x64
}

/// Where the kernel comes from.
#[derive(Debug)]
pub enum KernelFrom {
    /// The environment names it.
    Named(String),
    /// The environment names one that is not there.
    Missing(String),
    /// It was unpacked before.
    Cached,
    /// It was downloaded before.
    Unpack,
    Download,
}

/// Decide where the kernel comes from.
pub fn ensure_kernel(named: &Option<String>, named_there: bool, cached: bool, downloaded: bool) -> (f:
    KernelFrom)
    ensures
        match f {
            KernelFrom::Named(p) => *named is Some && named_there && p@ == (*named)->0@,
            KernelFrom::Missing(m) => *named is Some && !named_there && m@
                == "NEBULA_SPIKE_KERNEL="@ + (*named)->0@ + " not found"@,
            KernelFrom::Cached => *named is None && cached,
            KernelFrom::Unpack => *named is None && !cached && downloaded,
            KernelFrom::Download => *named is None && !cached && !downloaded,
        },
{
    match named {
        Some(p) => if named_there {
            KernelFrom::Named(owned(p.as_str()))
        } else {
            KernelFrom::Missing(cat3("NEBULA_SPIKE_KERNEL=", p.as_str(), " not found"))
        },
        None => if cached {
            KernelFrom::Cached
        } else if downloaded {
            KernelFrom::Unpack
        } else {
            KernelFrom::Download
        },
    }
}

// The initramfs

pub open spec fn dir_entry(name: Seq<char>, perm: u32) -> EntryView {
    EntryView {
        name: crate::initramfs::member_name(name),
        mode: crate::initramfs::S_IFDIR | (perm & 0o7777),
        rdev: (0, 0),
        data: Seq::empty(),
    }
}

pub open spec fn file_entry(name: Seq<char>, data: Seq<u8>, perm: u32) -> EntryView {
    EntryView {
        name: crate::initramfs::member_name(name),
        mode: crate::initramfs::S_IFREG | (perm & 0o7777),
        rdev: (0, 0),
        data,
    }
}

/// The console node that the kernel needs to give its first process a stdio.
pub open spec fn console_entry() -> EntryView {
    EntryView {
        name: crate::initramfs::member_name("/dev/console"@),
        mode: crate::initramfs::S_IFCHR | (0o600u32 & 0o7777u32),
        rdev: (5, 1),
        data: Seq::empty(),
    }
}

/// What is in the initramfs: the init, the console node, and the module for
/// MMIO devices where it could be had.
pub open spec fn spike_members(init: Seq<u8>, module: Option<Seq<u8>>) -> Seq<EntryView> {
    let base = seq![
        dir_entry("/dev"@, 0o755),
        console_entry(),
        dir_entry("/proc"@, 0o755),
        dir_entry("/sys"@, 0o755),
        file_entry("/init"@, init, 0o755),
    ];
    match module {
        Some(ko) => base.push(file_entry("/virtio_mmio.ko"@, ko, 0o644)),
        None => base,
    }
}

/// Assemble the initramfs.
pub fn build_spike_initramfs(init: Vec<u8>, module: Option<Vec<u8>>) -> (out: Vec<u8>)
    ensures
        out@ == crate::initramfs::archive(
            spike_members(
                init@,
                match module {
                    Some(ko) => Some(ko@),
                    None => None,
                },
            ),
        ),
{
    let ghost iv = init@;
    let mut b: InitramfsBuilder = InitramfsBuilder::new();
    b = b.dir("/dev", 0o755);
    b = b.char_dev("/dev/console", 5, 1, 0o600);
    b = b.dir("/proc", 0o755);
    b = b.dir("/sys", 0o755);
    b = b.file("/init", init, 0o755);
    assert(b@ =~= spike_members(iv, None));
    if let Some(ko) = module {
        b = b.file("/virtio_mmio.ko", ko, 0o644);
    }
    b.build()
}

/// The line that is found is the first with the mark.
pub proof fn the_first_mark_is_found(lines: Seq<Seq<char>>, mark: Seq<char>, k: int)
    requires
        0 <= k < lines.len(),
        crate::text::has_part(lines[k], mark),
        forall|j: int| 0 <= j < k ==> !crate::text::has_part(#[trigger] lines[j], mark),
    ensures
        marked(lines, mark) == Some(lines[k]),
    decreases lines.len(),
{
    if k > 0 {
        let rest = lines.skip(1);
        assert(!crate::text::has_part(lines[0], mark));
        assert forall|j: int| 0 <= j < k - 1 implies !crate::text::has_part(
            #[trigger] rest[j],
            mark,
        ) by {
            assert(rest[j] == lines[j + 1]);
        }
        the_first_mark_is_found(rest, mark, k - 1);
    }
}

/// Without the mark on any line nothing is found.
pub proof fn no_mark_is_no_line(lines: Seq<Seq<char>>, mark: Seq<char>)
    requires
        forall|j: int| 0 <= j < lines.len() ==> !crate::text::has_part(#[trigger] lines[j], mark),
    ensures
        marked(lines, mark) is None,
    decreases lines.len(),
{
    if lines.len() > 0 {
        let rest = lines.skip(1);
        assert(!crate::text::has_part(lines[0], mark));
        assert forall|j: int| 0 <= j < rest.len() implies !crate::text::has_part(
            #[trigger] rest[j],
            mark,
        ) by {
            assert(rest[j] == lines[j + 1]);
        }
        no_mark_is_no_line(rest, mark);
    }
}

/// The last lines are shown in order, set in, and no more than were asked for.
pub proof fn the_last_lines_are_shown(lines: Seq<Seq<char>>, n: int, i: int)
    requires
        n >= 0,
    ensures
        last_lines(lines, n).len() == (if lines.len() < n {
            lines.len() as int
        } else {
            n
        }),
        0 <= i < last_lines(lines, n).len() ==> last_lines(lines, n)[last_lines(lines, n).len() - 1
            - i] == "  "@ + lines[lines.len() - 1 - i],
{
}

} // verus!

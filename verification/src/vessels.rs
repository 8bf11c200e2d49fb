//! Named vessels: persistent microVMs beside the engine vessel.
//!
//! Names and paths, the options that the user gives, and what creating a
//! vessel amounts to. Nothing here touches the host: what was found there
//! comes in, what is to be done there goes out.
//!
//! A vessel lives in its own directory: spec.json, pid, rootfs.img, data.img,
//! console.log, agent.sock, shell.sock, vmm.sock, worker.log, snapshots/.

use crate::paths::{join, joined_path};
use crate::spec::{
    is_name_char, is_plain_name, BootSpec, ConsoleSpec, DiskSpec, DiskView, NetSpec, PortView,
    ShareSpec, ShareView, SpecView, VmSpec, VsockPortMap,
};
use crate::text::{
    cat2, cat3, cat4, cat5, decimal_str, ends_with, from_chars, hex_digit_of, hex_lower, opt_owned,
    owned, parse_u64, same, starts_with, to_chars,
};
use vstd::prelude::*;
use vstd::string::StringExecFns;

verus! {

/// Why a vessel operation is refused or failed.
#[derive(Debug)]
pub enum VesselError {
    /// The name belongs to the engine vessel.
    Engine { name: String },
    /// Not a vessel name.
    BadName { name: String },
    /// Not a snapshot label.
    BadLabel { label: String },
    /// A directory to share does not exist.
    MountMissing { raw: String },
    /// A path to share is not a directory.
    MountNotDir { path: String },
    /// No colon in a volume.
    VolumeSyntax { spec: String },
    /// Not a volume name.
    VolumeName { name: String },
    /// The data disk is no extra volume.
    VolumeIsData,
    /// A volume is given twice.
    VolumeTwice { name: String },
    /// A volume's size is no number.
    VolumeBadSize { name: String, size: String },
    /// A volume's size is out of range.
    VolumeRange { name: String },
    /// More extra volumes than devices.
    TooManyVolumes,
    /// No such backend.
    BadBackend { backend: String },
    /// The backend needs another host.
    VzElsewhere,
    /// The backend has no GPU.
    VzGpu,
    /// No guest kernel is installed.
    NoKernel,
    /// No guest image is installed.
    NoImages,
    /// The caller has not placed the root disk.
    NotPrepared { dir: String },
    /// No such vessel.
    NoVessel { name: String },
    /// The vessel has no description.
    NoSpec { dir: String },
    /// This host cannot resume the backend's machine state.
    NoRestoreHere,
    /// The worker died while the vessel came up.
    WorkerExited { name: String, log: String },
    /// The guest agent did not answer in time.
    NotHealthy { name: String, log: String },
    /// A running vessel is not removed.
    Running { name: String },
    /// The label is taken.
    SnapshotExists { label: String },
    /// This host cannot save the backend's machine state.
    NoMemoryHere { backend: String },
    /// A memory snapshot needs a running vessel.
    NotLive { name: String },
    /// No such snapshot.
    NoSnapshot { name: String, label: String },
    /// The name is taken.
    Exists { name: String },
    /// An argument that no process can get.
    NulInArgument,
    /// Something outside failed, in its own words.
    Failed { what: String },
}

/// The errors as their mathematical content.
pub enum VesselErrorView {
    Engine { name: Seq<char> },
    BadName { name: Seq<char> },
    BadLabel { label: Seq<char> },
    MountMissing { raw: Seq<char> },
    MountNotDir { path: Seq<char> },
    VolumeSyntax { spec: Seq<char> },
    VolumeName { name: Seq<char> },
    VolumeIsData,
    VolumeTwice { name: Seq<char> },
    VolumeBadSize { name: Seq<char>, size: Seq<char> },
    VolumeRange { name: Seq<char> },
    TooManyVolumes,
    BadBackend { backend: Seq<char> },
    VzElsewhere,
    VzGpu,
    NoKernel,
    NoImages,
    NotPrepared { dir: Seq<char> },
    NoVessel { name: Seq<char> },
    NoSpec { dir: Seq<char> },
    NoRestoreHere,
    WorkerExited { name: Seq<char>, log: Seq<char> },
    NotHealthy { name: Seq<char>, log: Seq<char> },
    Running { name: Seq<char> },
    SnapshotExists { label: Seq<char> },
    NoMemoryHere { backend: Seq<char> },
    NotLive { name: Seq<char> },
    NoSnapshot { name: Seq<char>, label: Seq<char> },
    Exists { name: Seq<char> },
    NulInArgument,
    Failed { what: Seq<char> },
}

impl View for VesselError {
    type V = VesselErrorView;

    open spec fn view(&self) -> VesselErrorView {
        match self {
            VesselError::Engine { name } => VesselErrorView::Engine { name: name@ },
            VesselError::BadName { name } => VesselErrorView::BadName { name: name@ },
            VesselError::BadLabel { label } => VesselErrorView::BadLabel { label: label@ },
            VesselError::MountMissing { raw } => VesselErrorView::MountMissing { raw: raw@ },
            VesselError::MountNotDir { path } => VesselErrorView::MountNotDir { path: path@ },
            VesselError::VolumeSyntax { spec } => VesselErrorView::VolumeSyntax { spec: spec@ },
            VesselError::VolumeName { name } => VesselErrorView::VolumeName { name: name@ },
            VesselError::VolumeIsData => VesselErrorView::VolumeIsData,
            VesselError::VolumeTwice { name } => VesselErrorView::VolumeTwice { name: name@ },
            VesselError::VolumeBadSize { name, size } => VesselErrorView::VolumeBadSize { name: name@, size: size@ },
            VesselError::VolumeRange { name } => VesselErrorView::VolumeRange { name: name@ },
            VesselError::TooManyVolumes => VesselErrorView::TooManyVolumes,
            VesselError::BadBackend { backend } => VesselErrorView::BadBackend { backend: backend@ },
            VesselError::VzElsewhere => VesselErrorView::VzElsewhere,
            VesselError::VzGpu => VesselErrorView::VzGpu,
            VesselError::NoKernel => VesselErrorView::NoKernel,
            VesselError::NoImages => VesselErrorView::NoImages,
            VesselError::NotPrepared { dir } => VesselErrorView::NotPrepared { dir: dir@ },
            VesselError::NoVessel { name } => VesselErrorView::NoVessel { name: name@ },
            VesselError::NoSpec { dir } => VesselErrorView::NoSpec { dir: dir@ },
            VesselError::NoRestoreHere => VesselErrorView::NoRestoreHere,
            VesselError::WorkerExited { name, log } => VesselErrorView::WorkerExited { name: name@, log: log@ },
            VesselError::NotHealthy { name, log } => VesselErrorView::NotHealthy { name: name@, log: log@ },
            VesselError::Running { name } => VesselErrorView::Running { name: name@ },
            VesselError::SnapshotExists { label } => VesselErrorView::SnapshotExists { label: label@ },
            VesselError::NoMemoryHere { backend } => VesselErrorView::NoMemoryHere { backend: backend@ },
            VesselError::NotLive { name } => VesselErrorView::NotLive { name: name@ },
            VesselError::NoSnapshot { name, label } => VesselErrorView::NoSnapshot { name: name@, label: label@ },
            VesselError::Exists { name } => VesselErrorView::Exists { name: name@ },
            VesselError::NulInArgument => VesselErrorView::NulInArgument,
            VesselError::Failed { what } => VesselErrorView::Failed { what: what@ },
        }
    }
}

impl VesselErrorView {
    /// What the user reads.
    pub open spec fn text(self) -> Seq<char> {
        match self {
            VesselErrorView::Engine { name } => "`"@ + name + "` is the engine vessel — it runs docker/kubernetes and is managed with `nebula up` / `nebula down`"@,
            VesselErrorView::BadName { name } => "vessel names must be non-empty [a-zA-Z0-9_-], got `"@ + name + "`"@,
            VesselErrorView::BadLabel { label } => "snapshot labels must be [a-zA-Z0-9._-], got `"@ + label + "`"@,
            VesselErrorView::MountMissing { raw } => "--mount path does not exist: `"@ + raw + "`"@,
            VesselErrorView::MountNotDir { path } => "--mount wants a directory, got `"@ + path + "`"@,
            VesselErrorView::VolumeSyntax { spec } => "--volume wants name:GiB, got `"@ + spec + "`"@,
            VesselErrorView::VolumeName { name } => "volume names must be [a-z0-9_-] (max 32 chars), got `"@ + name + "`"@,
            VesselErrorView::VolumeIsData => "`data` is the built-in data disk (size it with --disk)"@,
            VesselErrorView::VolumeTwice { name } => "duplicate volume `"@ + name + "`"@,
            VesselErrorView::VolumeBadSize { name, size } => "volume `"@ + name + "`: bad size `"@ + size + "` (GiB)"@,
            VesselErrorView::VolumeRange { name } => "volume `"@ + name + "`: size must be 1..=2048 GiB"@,
            VesselErrorView::TooManyVolumes => "at most 8 extra volumes per vessel"@,
            VesselErrorView::BadBackend { backend } => "--backend must be `krun` or `vz`, got `"@ + backend + "`"@,
            VesselErrorView::VzElsewhere => "--backend vz is Virtualization.framework (macOS-only) — use krun on Linux"@,
            VesselErrorView::VzGpu => "GPU passthrough (Venus) is libkrun-only — drop --backend vz or --gpu"@,
            VesselErrorView::NoKernel => "guest kernel missing — run `nebula up` once first"@,
            VesselErrorView::NoImages => "guest images missing — run `nebula up` once first"@,
            VesselErrorView::NotPrepared { dir } => "prepared rootfs.img missing in "@ + dir,
            VesselErrorView::NoVessel { name } => "no vessel named `"@ + name + "`"@,
            VesselErrorView::NoSpec { dir } => "no vessel at "@ + dir,
            VesselErrorView::NoRestoreHere => "memory-state restore for krun vessels needs an x86_64 Linux or Windows host (use vz on macOS)"@,
            VesselErrorView::WorkerExited { name, log } => "vessel `"@ + name + "` worker exited — see "@ + log,
            VesselErrorView::NotHealthy { name, log } => "vessel `"@ + name + "` did not become healthy within 20s — see "@ + log,
            VesselErrorView::Running { name } => "vessel `"@ + name + "` is running — stop it first or use --force"@,
            VesselErrorView::SnapshotExists { label } => "snapshot `"@ + label + "` already exists"@,
            VesselErrorView::NoMemoryHere { backend } => "memory snapshots aren't supported for "@ + backend + "-backed vessels on this platform yet"@,
            VesselErrorView::NotLive { name } => "vessel `"@ + name + "` is not running — a memory snapshot captures a LIVE vm (for a stopped vessel take a disk snapshot: --no-memory)"@,
            VesselErrorView::NoSnapshot { name, label } => "no snapshot `"@ + name + "@"@ + label + "`"@,
            VesselErrorView::Exists { name } => "vessel `"@ + name + "` already exists"@,
            VesselErrorView::NulInArgument => "nul byte in process argument"@,
            VesselErrorView::Failed { what } => what,
        }
    }
}

impl VesselError {
    /// What the user reads.
    pub fn message(&self) -> (s: String)
        ensures
            s@ == self@.text(),
    {
        match self {
            VesselError::Engine { name } => cat3("`", name.as_str(), "` is the engine vessel — it runs docker/kubernetes and is managed with `nebula up` / `nebula down`"),
            VesselError::BadName { name } => cat3("vessel names must be non-empty [a-zA-Z0-9_-], got `", name.as_str(), "`"),
            VesselError::BadLabel { label } => cat3("snapshot labels must be [a-zA-Z0-9._-], got `", label.as_str(), "`"),
            VesselError::MountMissing { raw } => cat3("--mount path does not exist: `", raw.as_str(), "`"),
            VesselError::MountNotDir { path } => cat3("--mount wants a directory, got `", path.as_str(), "`"),
            VesselError::VolumeSyntax { spec } => cat3("--volume wants name:GiB, got `", spec.as_str(), "`"),
            VesselError::VolumeName { name } => cat3("volume names must be [a-z0-9_-] (max 32 chars), got `", name.as_str(), "`"),
            VesselError::VolumeIsData => owned("`data` is the built-in data disk (size it with --disk)"),
            VesselError::VolumeTwice { name } => cat3("duplicate volume `", name.as_str(), "`"),
            VesselError::VolumeBadSize { name, size } => cat5("volume `", name.as_str(), "`: bad size `", size.as_str(), "` (GiB)"),
            VesselError::VolumeRange { name } => cat3("volume `", name.as_str(), "`: size must be 1..=2048 GiB"),
            VesselError::TooManyVolumes => owned("at most 8 extra volumes per vessel"),
            VesselError::BadBackend { backend } => cat3("--backend must be `krun` or `vz`, got `", backend.as_str(), "`"),
            VesselError::VzElsewhere => owned("--backend vz is Virtualization.framework (macOS-only) — use krun on Linux"),
            VesselError::VzGpu => owned("GPU passthrough (Venus) is libkrun-only — drop --backend vz or --gpu"),
            VesselError::NoKernel => owned("guest kernel missing — run `nebula up` once first"),
            VesselError::NoImages => owned("guest images missing — run `nebula up` once first"),
            VesselError::NotPrepared { dir } => cat2("prepared rootfs.img missing in ", dir.as_str()),
            VesselError::NoVessel { name } => cat3("no vessel named `", name.as_str(), "`"),
            VesselError::NoSpec { dir } => cat2("no vessel at ", dir.as_str()),
            VesselError::NoRestoreHere => owned("memory-state restore for krun vessels needs an x86_64 Linux or Windows host (use vz on macOS)"),
            VesselError::WorkerExited { name, log } => cat4("vessel `", name.as_str(), "` worker exited — see ", log.as_str()),
            VesselError::NotHealthy { name, log } => cat4("vessel `", name.as_str(), "` did not become healthy within 20s — see ", log.as_str()),
            VesselError::Running { name } => cat3("vessel `", name.as_str(), "` is running — stop it first or use --force"),
            VesselError::SnapshotExists { label } => cat3("snapshot `", label.as_str(), "` already exists"),
            VesselError::NoMemoryHere { backend } => cat3("memory snapshots aren't supported for ", backend.as_str(), "-backed vessels on this platform yet"),
            VesselError::NotLive { name } => cat3("vessel `", name.as_str(), "` is not running — a memory snapshot captures a LIVE vm (for a stopped vessel take a disk snapshot: --no-memory)"),
            VesselError::NoSnapshot { name, label } => cat5("no snapshot `", name.as_str(), "@", label.as_str(), "`"),
            VesselError::Exists { name } => cat3("vessel `", name.as_str(), "` already exists"),
            VesselError::NulInArgument => owned("nul byte in process argument"),
            VesselError::Failed { what } => owned(what.as_str()),
        }
    }
}

/// Names that refer to the engine vessel. The engine is brought up and down
/// with the daemon; vessel operations refuse it.
pub open spec fn engine_name(name: Seq<char>) -> bool {
    name == "vessel"@ || name == "default"@ || name == "engine"@ || name == "nebula"@
}

pub fn is_engine(name: &str) -> (r: bool)
    ensures
        r == engine_name(name@),
{
    same(name, "vessel") || same(name, "default") || same(name, "engine") || same(name, "nebula")
}

/// Where the vessels live below Nebula's home.
pub fn vessels_root(home: &str) -> (p: String)
    ensures
        p@ == joined_path(home@, "vessels"@),
{
    join(home, "vessels")
}

/// What is wrong with a vessel's name, if anything.
pub open spec fn name_problem(name: Seq<char>) -> Option<VesselErrorView> {
    if engine_name(name) {
        Some(VesselErrorView::Engine { name })
    } else if !crate::spec::plain_name(name) {
        Some(VesselErrorView::BadName { name })
    } else {
        None
    }
}

pub fn validate_name(name: &str) -> (r: Result<(), VesselError>)
    ensures
        match r {
            Ok(_) => name_problem(name@) is None,
            Err(e) => name_problem(name@) == Some(e@),
        },
{
    if is_engine(name) {
        return Err(VesselError::Engine { name: owned(name) });
    }
    if !is_plain_name(name) {
        return Err(VesselError::BadName { name: owned(name) });
    }
    Ok(())
}

/// The directory of a vessel.
pub open spec fn vessel_dir(home: Seq<char>, name: Seq<char>) -> Seq<char> {
    joined_path(joined_path(home, "vessels"@), name)
}

/// The directory of the named vessel, if the name is one.
pub fn dir_of(home: &str, name: &str) -> (r: Result<String, VesselError>)
    ensures
        match r {
            Ok(p) => name_problem(name@) is None && p@ == vessel_dir(home@, name@),
            Err(e) => name_problem(name@) == Some(e@),
        },
{
    match validate_name(name) {
        Ok(()) => Ok(join(vessels_root(home).as_str(), name)),
        Err(e) => Err(e),
    }
}

/// Letters, digits, hyphens, underscores and dots, at least one.
pub open spec fn label_ok(label: Seq<char>) -> bool {
    label.len() > 0 && forall|i: int|
        0 <= i < label.len() ==> crate::spec::name_char(#[trigger] label[i]) || label[i] == '.'
}

pub fn validate_label(label: &str) -> (r: Result<(), VesselError>)
    ensures
        match r {
            Ok(_) => label_ok(label@),
            Err(e) => !label_ok(label@) && e@ == (VesselErrorView::BadLabel { label: label@ }),
        },
{
    let v: Vec<char> = to_chars(label);
    let mut ok: bool = v.len() > 0;
    let mut i: usize = 0;
    while i < v.len()
        invariant
            v@ == label@,
            i <= v@.len(),
            ok == (v@.len() > 0 && forall|j: int|
                0 <= j < i ==> crate::spec::name_char(#[trigger] label@[j]) || label@[j] == '.'),
        decreases v@.len() - i,
    {
        if !(is_name_char(v[i]) || v[i] == '.') {
            assert(!(crate::spec::name_char(label@[i as int]) || label@[i as int] == '.'));
            ok = false;
        }
        i = i + 1;
    }
    if ok {
        Ok(())
    } else {
        Err(VesselError::BadLabel { label: owned(label) })
    }
}

/// Where a vessel keeps the snapshot of that label.
pub open spec fn snapshot_dir(dir: Seq<char>, label: Seq<char>) -> Seq<char> {
    joined_path(joined_path(dir, "snapshots"@), label)
}

pub fn snap_dir(dir: &str, label: &str) -> (p: String)
    ensures
        p@ == snapshot_dir(dir@, label@),
{
    join(join(dir, "snapshots").as_str(), label)
}

// Disk images.

/// Dictionary order of texts.
pub open spec fn lex_le(a: Seq<char>, b: Seq<char>) -> bool
    decreases a.len(),
{
    if a.len() == 0 {
        true
    } else if b.len() == 0 {
        false
    } else if a[0] == b[0] {
        lex_le(a.skip(1), b.skip(1))
    } else {
        a[0] < b[0]
    }
}

pub fn text_le(a: &Vec<char>, b: &Vec<char>) -> (r: bool)
    ensures
        r == lex_le(a@, b@),
{
    let mut i: usize = 0;
    assert(a@.skip(0) =~= a@);
    assert(b@.skip(0) =~= b@);
    while i < a.len()
        invariant
            i <= a@.len(),
            i <= b@.len(),
            lex_le(a@.skip(i as int), b@.skip(i as int)) == lex_le(a@, b@),
        decreases a@.len() - i,
    {
        let ghost x = a@.skip(i as int);
        let ghost y = b@.skip(i as int);
        if i >= b.len() {
            assert(y.len() == 0);
            return false;
        }
        assert(x[0] == a@[i as int]);
        assert(y[0] == b@[i as int]);
        if a[i] != b[i] {
            return a[i] < b[i];
        }
        assert(x.skip(1) =~= a@.skip(i as int + 1));
        assert(y.skip(1) =~= b@.skip(i as int + 1));
        i = i + 1;
    }
    true
}

/// `x` put into an ordered list, before the first text that is not smaller.
pub open spec fn inserted(x: Seq<char>, s: Seq<Seq<char>>) -> Seq<Seq<char>>
    decreases s.len(),
{
    if s.len() == 0 {
        seq![x]
    } else if lex_le(x, s[0]) {
        seq![x] + s
    } else {
        seq![s[0]] + inserted(x, s.skip(1))
    }
}

/// The texts in dictionary order.
pub open spec fn in_order(s: Seq<Seq<char>>) -> Seq<Seq<char>>
    decreases s.len(),
{
    if s.len() == 0 {
        Seq::empty()
    } else {
        inserted(s.last(), in_order(s.drop_last()))
    }
}

fn insert_name(list: &mut Vec<String>, name: String)
    ensures
        crate::text::views(final(list)@) == inserted(name@, crate::text::views(old(list)@)),
{
    let ghost lv = crate::text::views(list@);
    let ghost x = name@;
    let nv: Vec<char> = to_chars(name.as_str());
    let mut i: usize = 0;
    assert(lv.skip(0) =~= lv);
    assert(lv.take(0) + inserted(x, lv.skip(0)) =~= inserted(x, lv));
    while i < list.len() && !text_le(&nv, &to_chars(list[i].as_str()))
        invariant
            i <= list@.len(),
            list@ == old(list)@,
            lv == crate::text::views(list@),
            nv@ == x,
            lv.take(i as int) + inserted(x, lv.skip(i as int)) == inserted(x, lv),
        decreases list@.len() - i,
    {
        let ghost rest = lv.skip(i as int);
        assert(rest[0] == list@[i as int]@);
        assert(rest.skip(1) =~= lv.skip(i as int + 1));
        assert(lv.take(i as int) + (seq![rest[0]] + inserted(x, rest.skip(1))) =~= lv.take(
            i as int + 1,
        ) + inserted(x, rest.skip(1)));
        i = i + 1;
    }
    proof {
        let rest = lv.skip(i as int);
        if i < list@.len() {
            assert(rest[0] == list@[i as int]@);
            assert(inserted(x, rest) == seq![x] + rest);
        } else {
            assert(rest =~= Seq::empty());
            assert(inserted(x, rest) =~= seq![x] + rest);
        }
    }
    list.insert(i, name);
    assert(crate::text::views(list@) =~= lv.take(i as int) + (seq![x] + lv.skip(i as int)));
}

/// Sort names into dictionary order.
pub fn sort_names(names: Vec<String>) -> (r: Vec<String>)
    ensures
        crate::text::views(r@) == in_order(crate::text::views(names@)),
{
    let ghost nv = crate::text::views(names@);
    let mut r: Vec<String> = Vec::new();
    let mut i: usize = 0;
    assert(nv.take(0) =~= Seq::empty());
    assert(crate::text::views(r@) =~= Seq::empty());
    while i < names.len()
        invariant
            i <= names@.len(),
            nv == crate::text::views(names@),
            crate::text::views(r@) == in_order(nv.take(i as int)),
        decreases names@.len() - i,
    {
        let ghost longer = nv.take(i as int + 1);
        assert(longer.drop_last() =~= nv.take(i as int));
        assert(longer.last() == names@[i as int]@);
        insert_name(&mut r, owned(names[i].as_str()));
        i = i + 1;
    }
    assert(nv.take(names@.len() as int) =~= nv);
    r
}

/// Whether the file is the disk of an extra volume.
pub open spec fn volume_file(name: Seq<char>) -> bool {
    crate::text::has_prefix(name, "vol-"@) && crate::text::has_suffix(name, ".img"@)
}

/// Every disk image a vessel owns: the root (vda), the data disk (vdb), then
/// the volumes (from vdc on), by name.
pub open spec fn images_of(entries: Seq<Seq<char>>) -> Seq<Seq<char>> {
    seq!["rootfs.img"@, "data.img"@] + in_order(entries.filter(|n: Seq<char>| volume_file(n)))
}

/// The disk images of a vessel whose directory holds `entries`: the set that
/// snapshots and branches must clone.
pub fn disk_images(entries: &Vec<String>) -> (r: Vec<String>)
    ensures
        crate::text::views(r@) == images_of(crate::text::views(entries@)),
{
    let ghost ev = crate::text::views(entries@);
    let ghost is_vol = |n: Seq<char>| volume_file(n);
    let mut vols: Vec<String> = Vec::new();
    let mut i: usize = 0;
    proof {
        reveal(Seq::filter);
        assert(ev.take(0) =~= Seq::empty());
        assert(crate::text::views(vols@) =~= ev.take(0).filter(is_vol));
    }
    while i < entries.len()
        invariant
            i <= entries@.len(),
            ev == crate::text::views(entries@),
            is_vol == (|n: Seq<char>| volume_file(n)),
            crate::text::views(vols@) == ev.take(i as int).filter(is_vol),
        decreases entries@.len() - i,
    {
        let ghost longer = ev.take(i as int + 1);
        let ghost before = crate::text::views(vols@);
        proof {
            reveal(Seq::filter);
            assert(longer.drop_last() =~= ev.take(i as int));
            assert(longer.last() == entries@[i as int]@);
        }
        let name: &str = entries[i].as_str();
        if starts_with(name, "vol-") && ends_with(name, ".img") {
            vols.push(owned(name));
            assert(crate::text::views(vols@) =~= before.push(name@));
        }
        i = i + 1;
    }
    assert(ev.take(entries@.len() as int) =~= ev);
    let sorted: Vec<String> = sort_names(vols);
    let ghost sv = crate::text::views(sorted@);
    let mut r: Vec<String> = vec![owned("rootfs.img"), owned("data.img")];
    let ghost head = seq!["rootfs.img"@, "data.img"@];
    let mut k: usize = 0;
    assert(crate::text::views(r@) =~= head + sv.take(0));
    while k < sorted.len()
        invariant
            k <= sorted@.len(),
            sv == crate::text::views(sorted@),
            crate::text::views(r@) == head + sv.take(k as int),
        decreases sorted@.len() - k,
    {
        let ghost before = crate::text::views(r@);
        r.push(owned(sorted[k].as_str()));
        assert(crate::text::views(r@) =~= before.push(sv[k as int]));
        assert(before.push(sv[k as int]) =~= head + sv.take(k as int + 1));
        k = k + 1;
    }
    assert(sv.take(sorted@.len() as int) =~= sv);
    r
}

/// Two texts that stand before each other are one.
pub proof fn lemma_lex_antisym(a: Seq<char>, b: Seq<char>)
    requires
        lex_le(a, b),
        lex_le(b, a),
    ensures
        a == b,
    decreases a.len(),
{
    if a.len() > 0 && b.len() > 0 {
        if a[0] == b[0] {
            lemma_lex_antisym(a.skip(1), b.skip(1));
            assert(a =~= seq![a[0]] + a.skip(1));
            assert(b =~= seq![b[0]] + b.skip(1));
        }
    } else {
        assert(a =~= b);
    }
}

/// No text stands before a smaller one.
pub open spec fn ordered(s: Seq<Seq<char>>) -> bool {
    forall|i: int, j: int| 0 <= i <= j < s.len() ==> lex_le(#[trigger] s[i], #[trigger] s[j])
}

proof fn lemma_lex_refl(a: Seq<char>)
    ensures
        lex_le(a, a),
    decreases a.len(),
{
    if a.len() > 0 {
        lemma_lex_refl(a.skip(1));
    }
}

pub proof fn lemma_lex_total(a: Seq<char>, b: Seq<char>)
    ensures
        lex_le(a, b) || lex_le(b, a),
    decreases a.len(),
{
    if a.len() > 0 && b.len() > 0 && a[0] == b[0] {
        lemma_lex_total(a.skip(1), b.skip(1));
    }
}

pub proof fn lemma_lex_trans(a: Seq<char>, b: Seq<char>, c: Seq<char>)
    requires
        lex_le(a, b),
        lex_le(b, c),
    ensures
        lex_le(a, c),
    decreases a.len(),
{
    if a.len() > 0 && b.len() > 0 && c.len() > 0 && a[0] == b[0] && b[0] == c[0] {
        lemma_lex_trans(a.skip(1), b.skip(1), c.skip(1));
    }
}

proof fn lemma_inserted(x: Seq<char>, s: Seq<Seq<char>>)
    requires
        ordered(s),
    ensures
        ordered(inserted(x, s)),
        inserted(x, s).to_multiset() == s.to_multiset().insert(x),
        inserted(x, s).len() == s.len() + 1,
        forall|i: int| 0 <= i < inserted(x, s).len() ==> #[trigger] inserted(x, s)[i] == x
            || s.contains(inserted(x, s)[i]),
    decreases s.len(),
{
    broadcast use vstd::seq_lib::group_to_multiset_ensures;

    let r = inserted(x, s);
    if s.len() == 0 {
        lemma_lex_refl(x);
        assert(r =~= s.push(x));
    } else if lex_le(x, s[0]) {
        assert forall|i: int, j: int| 0 <= i <= j < r.len() implies lex_le(
            #[trigger] r[i],
            #[trigger] r[j],
        ) by {
            if i > 0 {
                assert(r[i] == s[i - 1] && r[j] == s[j - 1]);
            } else if j > 0 {
                assert(r[j] == s[j - 1]);
                assert(lex_le(s[0], s[j - 1]));
                lemma_lex_trans(x, s[0], s[j - 1]);
            } else {
                lemma_lex_refl(x);
            }
        }
        vstd::seq_lib::lemma_multiset_commutative(seq![x], s);
        assert(seq![x].to_multiset() =~= vstd::multiset::Multiset::empty().insert(x)) by {
            assert(seq![x] =~= Seq::<Seq<char>>::empty().push(x));
        }
        assert(r.to_multiset() =~= s.to_multiset().insert(x));
        assert forall|i: int| 0 <= i < r.len() implies #[trigger] r[i] == x || s.contains(r[i]) by {
            if i > 0 {
                assert(r[i] == s[i - 1]);
            }
        }
    } else {
        let t = s.skip(1);
        assert forall|i: int, j: int| 0 <= i <= j < t.len() implies lex_le(
            #[trigger] t[i],
            #[trigger] t[j],
        ) by {
            assert(t[i] == s[i + 1] && t[j] == s[j + 1]);
        }
        lemma_inserted(x, t);
        let u = inserted(x, t);
        lemma_lex_total(x, s[0]);
        assert(r == seq![s[0]] + u);
        assert forall|i: int, j: int| 0 <= i <= j < r.len() implies lex_le(
            #[trigger] r[i],
            #[trigger] r[j],
        ) by {
            if i > 0 {
                assert(r[i] == u[i - 1] && r[j] == u[j - 1]);
            } else if j > 0 {
                assert(r[j] == u[j - 1]);
                if u[j - 1] != x {
                    let k = choose|k: int| 0 <= k < t.len() && t[k] == u[j - 1];
                    assert(t[k] == s[k + 1]);
                    assert(lex_le(s[0], s[k + 1]));
                }
            } else {
                lemma_lex_refl(s[0]);
            }
        }
        vstd::seq_lib::lemma_multiset_commutative(seq![s[0]], u);
        vstd::seq_lib::lemma_multiset_commutative(seq![s[0]], t);
        assert(s =~= seq![s[0]] + t);
        assert(r.to_multiset() =~= s.to_multiset().insert(x));
        assert forall|i: int| 0 <= i < r.len() implies #[trigger] r[i] == x || s.contains(r[i]) by {
            if i > 0 {
                assert(r[i] == u[i - 1]);
                if u[i - 1] != x {
                    let k = choose|k: int| 0 <= k < t.len() && t[k] == u[i - 1];
                    assert(t[k] == s[k + 1]);
                }
            } else {
                assert(r[0] == s[0]);
            }
        }
    }
}

/// Sorting loses nothing, adds nothing, and leaves no name before a smaller
/// one.
pub proof fn sorting_sorts(s: Seq<Seq<char>>)
    ensures
        ordered(in_order(s)),
        in_order(s).to_multiset() == s.to_multiset(),
    decreases s.len(),
{
    broadcast use vstd::seq_lib::group_to_multiset_ensures;

    if s.len() > 0 {
        sorting_sorts(s.drop_last());
        lemma_inserted(s.last(), in_order(s.drop_last()));
        assert(s =~= s.drop_last().push(s.last()));
    }
}

// Options.

/// The position of the first `c`, if any.
pub open spec fn first_of(s: Seq<char>, c: char) -> Option<int>
    decreases s.len(),
{
    if s.len() == 0 {
        None
    } else if first_of(s.drop_last(), c) is Some {
        first_of(s.drop_last(), c)
    } else if s.last() == c {
        Some(s.len() - 1)
    } else {
        None
    }
}

/// The position of the last `c`, if any.
pub open spec fn last_of(s: Seq<char>, c: char) -> Option<int>
    decreases s.len(),
{
    if s.len() == 0 {
        None
    } else if s.last() == c {
        Some(s.len() - 1)
    } else {
        last_of(s.drop_last(), c)
    }
}

pub fn find_first(v: &Vec<char>, c: char) -> (r: Option<usize>)
    ensures
        match r {
            Some(i) => i < v@.len() && first_of(v@, c) == Some(i as int),
            None => first_of(v@, c) is None,
        },
{
    let mut i: usize = 0;
    let mut found: Option<usize> = None;
    assert(v@.take(0) =~= Seq::empty());
    while i < v.len()
        invariant
            i <= v@.len(),
            match found {
                Some(k) => k < i && first_of(v@.take(i as int), c) == Some(k as int),
                None => first_of(v@.take(i as int), c) is None,
            },
        decreases v@.len() - i,
    {
        assert(v@.take(i as int + 1).drop_last() =~= v@.take(i as int));
        assert(v@.take(i as int + 1).last() == v@[i as int]);
        if found.is_none() && v[i] == c {
            found = Some(i);
        }
        i = i + 1;
    }
    assert(v@.take(v@.len() as int) =~= v@);
    found
}

pub fn find_last(v: &Vec<char>, c: char) -> (r: Option<usize>)
    ensures
        match r {
            Some(i) => i < v@.len() && last_of(v@, c) == Some(i as int),
            None => last_of(v@, c) is None,
        },
{
    let mut n: usize = v.len();
    assert(v@.take(v@.len() as int) =~= v@);
    while n > 0
        invariant
            n <= v@.len(),
            last_of(v@.take(n as int), c) == last_of(v@, c),
        decreases n,
    {
        assert(v@.take(n as int).drop_last() =~= v@.take(n - 1));
        assert(v@.take(n as int).last() == v@[n - 1]);
        if v[n - 1] == c {
            return Some(n - 1);
        }
        n = n - 1;
    }
    None
}

/// A directory to share as the user writes it: a path, and `:ro` or `:rw`
/// behind it or nothing. Gives the path and whether it is read-only.
pub open spec fn mount_parts(s: Seq<char>) -> (Seq<char>, bool) {
    match last_of(s, ':') {
        Some(i) => if s.skip(i + 1) == "ro"@ {
            (s.take(i), true)
        } else if s.skip(i + 1) == "rw"@ {
            (s.take(i), false)
        } else {
            (s, false)
        },
        None => (s, false),
    }
}

/// The path to look up for a mount option, and whether it is read-only.
pub fn mount_request(s: &str) -> (r: (String, bool))
    ensures
        (r.0@, r.1) == mount_parts(s@),
{
    let v: Vec<char> = to_chars(s);
    let n: usize = v.len();
    match find_last(&v, ':') {
        Some(i) => {
            let tail: String = from_chars(&v, i + 1, n);
            assert(tail@ =~= s@.skip(i as int + 1));
            let head: String = from_chars(&v, 0, i);
            assert(head@ =~= s@.take(i as int));
            if same(tail.as_str(), "ro") {
                (head, true)
            } else if same(tail.as_str(), "rw") {
                (head, false)
            } else {
                (owned(s), false)
            }
        },
        None => (owned(s), false),
    }
}

/// What the host says of a path: its canonical form and whether that is a
/// directory; nothing where the path does not exist.
#[derive(Debug)]
pub struct Lookup {
    pub canonical: Option<String>,
    pub is_dir: bool,
}

pub open spec fn mount_views(v: Seq<(String, bool)>) -> Seq<(Seq<char>, bool)> {
    v.map_values(|m: (String, bool)| (m.0@, m.1))
}

pub open spec fn has_mount(out: Seq<(Seq<char>, bool)>, path: Seq<char>) -> bool {
    exists|i: int| 0 <= i < out.len() && (#[trigger] out[i]).0 == path
}

/// The shares of the options, each directory once, the first mention deciding;
/// or the first thing that is wrong.
pub open spec fn mounts_of(specs: Seq<Seq<char>>, found: Seq<Lookup>) -> Result<
    Seq<(Seq<char>, bool)>,
    VesselErrorView,
>
    decreases specs.len(),
{
    if specs.len() == 0 {
        Ok(Seq::empty())
    } else {
        let n = specs.len() - 1;
        match mounts_of(specs.drop_last(), found) {
            Err(e) => Err(e),
            Ok(out) => {
                let (raw, read_only) = mount_parts(specs[n]);
                match found[n].canonical {
                    None => Err(VesselErrorView::MountMissing { raw }),
                    Some(path) => if !found[n].is_dir {
                        Err(VesselErrorView::MountNotDir { path: path@ })
                    } else if has_mount(out, path@) {
                        Ok(out)
                    } else {
                        Ok(out.push((path@, read_only)))
                    },
                }
            },
        }
    }
}

fn mount_known(out: &Vec<(String, bool)>, path: &str) -> (r: bool)
    ensures
        r == has_mount(mount_views(out@), path@),
{
    let mut i: usize = 0;
    while i < out.len()
        invariant
            i <= out@.len(),
            forall|j: int| 0 <= j < i ==> (#[trigger] mount_views(out@)[j]).0 != path@,
        decreases out@.len() - i,
    {
        assert(mount_views(out@)[i as int].0 == out@[i as int].0@);
        if same(out[i].0.as_str(), path) {
            return true;
        }
        i = i + 1;
    }
    false
}

/// Parse the directories to share. The guest mounts each at the path that it
/// has on the host. `found[i]` is what the host says of the path of `specs[i]`.
pub fn parse_mounts(specs: &Vec<String>, found: &Vec<Lookup>) -> (r: Result<
    Vec<(String, bool)>,
    VesselError,
>)
    requires
        found@.len() == specs@.len(),
    ensures
        match r {
            Ok(v) => mounts_of(crate::text::views(specs@), found@) == Ok::<_, VesselErrorView>(
                mount_views(v@),
            ),
            Err(e) => mounts_of(crate::text::views(specs@), found@) == Err::<
                Seq<(Seq<char>, bool)>,
                _,
            >(e@),
        },
{
    let ghost sv = crate::text::views(specs@);
    let mut out: Vec<(String, bool)> = Vec::new();
    let mut i: usize = 0;
    assert(sv.take(0) =~= Seq::empty());
    assert(mount_views(out@) =~= Seq::empty());
    while i < specs.len()
        invariant
            i <= specs@.len(),
            found@.len() == specs@.len(),
            sv == crate::text::views(specs@),
            mounts_of(sv.take(i as int), found@) == Ok::<_, VesselErrorView>(mount_views(out@)),
        decreases specs@.len() - i,
    {
        let ghost longer = sv.take(i as int + 1);
        let ghost before = mount_views(out@);
        proof {
            assert(longer.drop_last() =~= sv.take(i as int));
            assert(longer[i as int] == specs@[i as int]@);
        }
        let (raw, read_only) = mount_request(specs[i].as_str());
        match &found[i].canonical {
            None => {
                proof {
                    lemma_mounts_fail(sv, found@, i as int + 1);
                }
                return Err(VesselError::MountMissing { raw });
            },
            Some(path) => {
                if !found[i].is_dir {
                    proof {
                        lemma_mounts_fail(sv, found@, i as int + 1);
                    }
                    return Err(VesselError::MountNotDir { path: owned(path.as_str()) });
                }
                if !mount_known(&out, path.as_str()) {
                    out.push((owned(path.as_str()), read_only));
                    assert(mount_views(out@) =~= before.push((path@, read_only)));
                }
            },
        }
        i = i + 1;
    }
    assert(sv.take(specs@.len() as int) =~= sv);
    Ok(out)
}

proof fn lemma_mounts_fail(specs: Seq<Seq<char>>, found: Seq<Lookup>, n: int)
    requires
        0 <= n <= specs.len(),
        mounts_of(specs.take(n), found) is Err,
    ensures
        mounts_of(specs, found) == mounts_of(specs.take(n), found),
    decreases specs.len(),
{
    if n == specs.len() {
        assert(specs.take(n) =~= specs);
    } else {
        assert(specs.drop_last().take(n) =~= specs.take(n));
        lemma_mounts_fail(specs.drop_last(), found, n);
    }
}

/// Lower-case letters, digits, hyphens and underscores: 1 to 32 of them.
pub open spec fn volume_name_ok(name: Seq<char>) -> bool {
    0 < name.len() <= 32 && forall|i: int| 0 <= i < name.len() ==> volume_char(#[trigger] name[i])
}

pub open spec fn volume_char(c: char) -> bool {
    'a' <= c <= 'z' || '0' <= c <= '9' || c == '-' || c == '_'
}

pub open spec fn has_volume(out: Seq<(Seq<char>, u64)>, name: Seq<char>) -> bool {
    exists|i: int| 0 <= i < out.len() && (#[trigger] out[i]).0 == name
}

/// One more volume option, `name:GiB`.
pub open spec fn volume_step(out: Seq<(Seq<char>, u64)>, s: Seq<char>) -> Result<
    Seq<(Seq<char>, u64)>,
    VesselErrorView,
> {
    match first_of(s, ':') {
        None => Err(VesselErrorView::VolumeSyntax { spec: s }),
        Some(i) => {
            let name = s.take(i);
            let size = s.skip(i + 1);
            let gib = crate::text::parse_dec(size, u64::MAX as nat);
            if !volume_name_ok(name) {
                Err(VesselErrorView::VolumeName { name })
            } else if name == "data"@ {
                Err(VesselErrorView::VolumeIsData)
            } else if has_volume(out, name) {
                Err(VesselErrorView::VolumeTwice { name })
            } else if gib is None {
                Err(VesselErrorView::VolumeBadSize { name, size })
            } else if !(1 <= gib->0 <= 2048) {
                Err(VesselErrorView::VolumeRange { name })
            } else {
                Ok(out.push((name, gib->0 as u64)))
            }
        },
    }
}

/// The volumes of the options in order, or the first thing that is wrong.
pub open spec fn volumes_so_far(specs: Seq<Seq<char>>) -> Result<
    Seq<(Seq<char>, u64)>,
    VesselErrorView,
>
    decreases specs.len(),
{
    if specs.len() == 0 {
        Ok(Seq::empty())
    } else {
        match volumes_so_far(specs.drop_last()) {
            Err(e) => Err(e),
            Ok(out) => volume_step(out, specs.last()),
        }
    }
}

/// The extra volumes of the options: at most eight.
pub open spec fn volumes_of(specs: Seq<Seq<char>>) -> Result<
    Seq<(Seq<char>, u64)>,
    VesselErrorView,
> {
    match volumes_so_far(specs) {
        Err(e) => Err(e),
        Ok(out) => if out.len() > 8 {
            Err(VesselErrorView::TooManyVolumes)
        } else {
            Ok(out)
        },
    }
}

pub open spec fn volume_views(v: Seq<(String, u64)>) -> Seq<(Seq<char>, u64)> {
    v.map_values(|m: (String, u64)| (m.0@, m.1))
}

fn is_volume_name(v: &Vec<char>) -> (r: bool)
    ensures
        r == volume_name_ok(v@),
{
    if v.len() == 0 || v.len() > 32 {
        return false;
    }
    let mut i: usize = 0;
    while i < v.len()
        invariant
            i <= v@.len(),
            forall|j: int| 0 <= j < i ==> volume_char(#[trigger] v@[j]),
        decreases v@.len() - i,
    {
        let c: char = v[i];
        if !(('a' <= c && c <= 'z') || ('0' <= c && c <= '9') || c == '-' || c == '_') {
            assert(!volume_char(v@[i as int]));
            return false;
        }
        i = i + 1;
    }
    true
}

fn volume_known(out: &Vec<(String, u64)>, name: &str) -> (r: bool)
    ensures
        r == has_volume(volume_views(out@), name@),
{
    let mut i: usize = 0;
    while i < out.len()
        invariant
            i <= out@.len(),
            forall|j: int| 0 <= j < i ==> (#[trigger] volume_views(out@)[j]).0 != name@,
        decreases out@.len() - i,
    {
        assert(volume_views(out@)[i as int].0 == out@[i as int].0@);
        if same(out[i].0.as_str(), name) {
            return true;
        }
        i = i + 1;
    }
    false
}

fn add_volume(out: &mut Vec<(String, u64)>, s: &str) -> (r: Result<(), VesselError>)
    ensures
        match r {
            Ok(_) => volume_step(volume_views(old(out)@), s@) == Ok::<_, VesselErrorView>(
                volume_views(final(out)@),
            ),
            Err(e) => volume_step(volume_views(old(out)@), s@) == Err::<
                Seq<(Seq<char>, u64)>,
                _,
            >(e@),
        },
{
    let ghost before = volume_views(out@);
    let v: Vec<char> = to_chars(s);
    let n: usize = v.len();
    match find_first(&v, ':') {
        None => Err(VesselError::VolumeSyntax { spec: owned(s) }),
        Some(i) => {
            let name: String = from_chars(&v, 0, i);
            let size: String = from_chars(&v, i + 1, n);
            assert(name@ =~= s@.take(i as int));
            assert(size@ =~= s@.skip(i as int + 1));
            if !is_volume_name(&to_chars(name.as_str())) {
                return Err(VesselError::VolumeName { name });
            }
            if same(name.as_str(), "data") {
                return Err(VesselError::VolumeIsData);
            }
            if volume_known(out, name.as_str()) {
                return Err(VesselError::VolumeTwice { name });
            }
            match parse_u64(size.as_str()) {
                None => Err(VesselError::VolumeBadSize { name, size }),
                Some(gib) => {
                    if !(1 <= gib && gib <= 2048) {
                        return Err(VesselError::VolumeRange { name });
                    }
                    let ghost n = name@;
                    out.push((name, gib));
                    assert(volume_views(out@) =~= before.push((n, gib)));
                    Ok(())
                },
            }
        },
    }
}

proof fn lemma_volumes_fail(specs: Seq<Seq<char>>, n: int)
    requires
        0 <= n <= specs.len(),
        volumes_so_far(specs.take(n)) is Err,
    ensures
        volumes_so_far(specs) == volumes_so_far(specs.take(n)),
    decreases specs.len(),
{
    if n == specs.len() {
        assert(specs.take(n) =~= specs);
    } else {
        assert(specs.drop_last().take(n) =~= specs.take(n));
        lemma_volumes_fail(specs.drop_last(), n);
    }
}

/// Parse the extra volumes. Their names become mount points and disk files, so
/// they are strictly checked.
pub fn parse_volumes(specs: &Vec<String>) -> (r: Result<Vec<(String, u64)>, VesselError>)
    ensures
        match r {
            Ok(v) => volumes_of(crate::text::views(specs@)) == Ok::<_, VesselErrorView>(
                volume_views(v@),
            ),
            Err(e) => volumes_of(crate::text::views(specs@)) == Err::<Seq<(Seq<char>, u64)>, _>(
                e@,
            ),
        },
{
    let ghost sv = crate::text::views(specs@);
    let mut out: Vec<(String, u64)> = Vec::new();
    let mut i: usize = 0;
    assert(sv.take(0) =~= Seq::empty());
    assert(volume_views(out@) =~= Seq::empty());
    while i < specs.len()
        invariant
            i <= specs@.len(),
            sv == crate::text::views(specs@),
            volumes_so_far(sv.take(i as int)) == Ok::<_, VesselErrorView>(volume_views(out@)),
        decreases specs@.len() - i,
    {
        let ghost longer = sv.take(i as int + 1);
        proof {
            assert(longer.drop_last() =~= sv.take(i as int));
            assert(longer.last() == specs@[i as int]@);
        }
        match add_volume(&mut out, specs[i].as_str()) {
            Err(e) => {
                proof {
                    lemma_volumes_fail(sv, i as int + 1);
                }
                return Err(e);
            },
            Ok(()) => {},
        }
        i = i + 1;
    }
    assert(sv.take(specs@.len() as int) =~= sv);
    if out.len() > 8 {
        return Err(VesselError::TooManyVolumes);
    }
    Ok(out)
}

/// Accepted volumes are at most eight, each with a proper name that is not
/// `data` and occurs once, and of 1 to 2048 GiB.
pub proof fn accepted_volumes_are_sound(specs: Seq<Seq<char>>)
    requires
        volumes_of(specs) is Ok,
    ensures
        ({
            let v = volumes_of(specs)->Ok_0;
            &&& v.len() <= 8
            &&& v.len() == specs.len()
            &&& forall|i: int|
                0 <= i < v.len() ==> volume_name_ok((#[trigger] v[i]).0) && v[i].0 != "data"@ && 1
                    <= v[i].1 <= 2048
            &&& forall|i: int, j: int|
                0 <= i < j < v.len() ==> (#[trigger] v[i]).0 != (#[trigger] v[j]).0
        }),
{
    lemma_volumes_sound(specs);
}

proof fn lemma_volumes_sound(specs: Seq<Seq<char>>)
    requires
        volumes_so_far(specs) is Ok,
    ensures
        ({
            let v = volumes_so_far(specs)->Ok_0;
            &&& v.len() == specs.len()
            &&& forall|i: int|
                0 <= i < v.len() ==> volume_name_ok((#[trigger] v[i]).0) && v[i].0 != "data"@ && 1
                    <= v[i].1 <= 2048
            &&& forall|i: int, j: int|
                0 <= i < j < v.len() ==> (#[trigger] v[i]).0 != (#[trigger] v[j]).0
        }),
    decreases specs.len(),
{
    if specs.len() > 0 {
        lemma_volumes_sound(specs.drop_last());
    }
}

/// Every directory is shared once.
pub proof fn mounts_are_distinct(specs: Seq<Seq<char>>, found: Seq<Lookup>)
    requires
        mounts_of(specs, found) is Ok,
    ensures
        forall|i: int, j: int|
            0 <= i < j < mounts_of(specs, found)->Ok_0.len() ==> (#[trigger] mounts_of(
                specs,
                found,
            )->Ok_0[i]).0 != (#[trigger] mounts_of(specs, found)->Ok_0[j]).0,
    decreases specs.len(),
{
    if specs.len() > 0 {
        mounts_are_distinct(specs.drop_last(), found);
    }
}

// What the options mean.

proof fn lemma_first_of(s: Seq<char>, c: char)
    ensures
        match first_of(s, c) {
            Some(i) => 0 <= i < s.len() && s[i] == c && forall|j: int|
                0 <= j < i ==> #[trigger] s[j] != c,
            None => forall|j: int| 0 <= j < s.len() ==> #[trigger] s[j] != c,
        },
    decreases s.len(),
{
    if s.len() > 0 {
        let short = s.drop_last();
        lemma_first_of(short, c);
        match first_of(short, c) {
            Some(i) => {
                assert(short[i] == s[i]);
                assert forall|j: int| 0 <= j < i implies #[trigger] s[j] != c by {
                    assert(short[j] == s[j]);
                }
            },
            None => {
                assert forall|j: int| 0 <= j < s.len() - 1 implies #[trigger] s[j] != c by {
                    assert(short[j] == s[j]);
                }
            },
        }
    }
}

pub proof fn lemma_last_of(s: Seq<char>, c: char)
    ensures
        match last_of(s, c) {
            Some(i) => 0 <= i < s.len() && s[i] == c && forall|j: int|
                i < j < s.len() ==> #[trigger] s[j] != c,
            None => forall|j: int| 0 <= j < s.len() ==> #[trigger] s[j] != c,
        },
    decreases s.len(),
{
    if s.len() > 0 && s.last() != c {
        let short = s.drop_last();
        lemma_last_of(short, c);
        match last_of(short, c) {
            Some(i) => {
                assert(short[i] == s[i]);
                assert forall|j: int| i < j < s.len() implies #[trigger] s[j] != c by {
                    if j < short.len() {
                        assert(short[j] == s[j]);
                    }
                }
            },
            None => {
                assert forall|j: int| 0 <= j < s.len() implies #[trigger] s[j] != c by {
                    if j < short.len() {
                        assert(short[j] == s[j]);
                    }
                }
            },
        }
    }
}

/// A path with `:ro` behind it is shared read-only, and with `:rw` or nothing
/// behind it for writing; the path is what stands before.
pub proof fn a_mount_option_means_its_path(path: Seq<char>)
    ensures
        mount_parts(path + ":ro"@) == (path, true),
        mount_parts(path + ":rw"@) == (path, false),
        !crate::text::has_suffix(path, ":ro"@) && !crate::text::has_suffix(path, ":rw"@)
            ==> mount_parts(path) == (path, false),
{
    reveal_strlit(":ro");
    reveal_strlit(":rw");
    reveal_strlit("ro");
    reveal_strlit("rw");
    let (a, b) = (path + ":ro"@, path + ":rw"@);
    let n = path.len() as int;
    lemma_last_of(a, ':');
    lemma_last_of(b, ':');
    lemma_last_of(path, ':');
    assert(a[n] == ':' && a[n + 1] == 'r' && a[n + 2] == 'o');
    assert(b[n] == ':' && b[n + 1] == 'r' && b[n + 2] == 'w');
    assert(last_of(a, ':') == Some(n));
    assert(last_of(b, ':') == Some(n));
    assert(a.skip(n + 1) =~= "ro"@);
    assert(b.skip(n + 1) =~= "rw"@);
    assert("ro"@[1] == 'o' && "rw"@[1] == 'w');
    assert(a.take(n) =~= path);
    assert(b.take(n) =~= path);
    if let Some(i) = last_of(path, ':') {
        let tail = path.skip(i + 1);
        if tail == "ro"@ || tail == "rw"@ {
            assert(tail.len() == 2);
            assert(i == n - 3);
            assert(path[n - 2] == tail[0] && path[n - 1] == tail[1]);
            if tail == "ro"@ {
                assert(path.subrange(n - 3, n) =~= ":ro"@);
            } else {
                assert(path.subrange(n - 3, n) =~= ":rw"@);
            }
        }
    }
}

/// The options are taken just where every path is an existing directory. Each
/// is then shared under its canonical path, read-only where the first option
/// that names it says so.
pub proof fn every_mount_is_shared(specs: Seq<Seq<char>>, found: Seq<Lookup>, k: int)
    requires
        0 <= k < specs.len(),
    ensures
        mounts_of(specs, found) is Ok ==> found[k].canonical is Some && found[k].is_dir && has_mount(
            mounts_of(specs, found)->Ok_0,
            found[k].canonical->0@,
        ),
        mounts_of(specs, found) is Ok && (forall|j: int|
            0 <= j < k ==> (#[trigger] found[j]).canonical->0@ != found[k].canonical->0@)
            ==> mounts_of(specs, found)->Ok_0.contains(
            (found[k].canonical->0@, mount_parts(specs[k]).1),
        ),
        (forall|j: int|
            0 <= j < specs.len() ==> (#[trigger] found[j]).canonical is Some && found[j].is_dir)
            ==> mounts_of(specs, found) is Ok,
    decreases specs.len(),
{
    let n = specs.len() - 1;
    let short = specs.drop_last();
    if n > 0 {
        every_mount_is_shared(
            short,
            found,
            if k < n {
                k
            } else {
                0
            },
        );
    }
    if let Ok(before) = mounts_of(short, found) {
        if let Ok(out) = mounts_of(specs, found) {
            let me = found[k].canonical->0@;
            if k < n {
                assert(short[k] == specs[k]);
                let i = choose|i: int| 0 <= i < before.len() && (#[trigger] before[i]).0 == me;
                assert(out[i] == before[i]);
                let entry = (me, mount_parts(specs[k]).1);
                if before.contains(entry) {
                    let j = choose|j: int| 0 <= j < before.len() && before[j] == entry;
                    assert(out[j] == entry);
                }
            } else {
                if has_mount(before, me) {
                    lemma_mounts_come_from(short, found);
                    let i = choose|i: int| 0 <= i < before.len() && (#[trigger] before[i]).0 == me;
                    assert(out[i].0 == me);
                    let j = choose|j: int|
                        0 <= j < short.len() && (#[trigger] found[j]).canonical is Some
                            && found[j].canonical->0@ == before[i].0;
                    assert(found[j].canonical->0@ == me);
                } else {
                    assert(out[out.len() - 1].0 == me);
                    assert(out[out.len() - 1] == (me, mount_parts(specs[k]).1));
                }
            }
        }
    }
    if forall|j: int|
        0 <= j < specs.len() ==> (#[trigger] found[j]).canonical is Some && found[j].is_dir {
        assert(found[n].canonical is Some && found[n].is_dir);
        if n == 0 {
            assert(mounts_of(short, found) is Ok);
        }
    }
}

proof fn lemma_mounts_come_from(specs: Seq<Seq<char>>, found: Seq<Lookup>)
    requires
        mounts_of(specs, found) is Ok,
    ensures
        forall|i: int|
            0 <= i < mounts_of(specs, found)->Ok_0.len() ==> exists|j: int|
                0 <= j < specs.len() && (#[trigger] found[j]).canonical is Some
                    && found[j].canonical->0@ == (#[trigger] mounts_of(specs, found)->Ok_0[i]).0,
    decreases specs.len(),
{
    if specs.len() > 0 {
        let n = specs.len() - 1;
        let short = specs.drop_last();
        lemma_mounts_come_from(short, found);
        let (before, out) = (mounts_of(short, found)->Ok_0, mounts_of(specs, found)->Ok_0);
        assert forall|i: int| 0 <= i < out.len() implies exists|j: int|
            0 <= j < specs.len() && (#[trigger] found[j]).canonical is Some
                && found[j].canonical->0@ == (#[trigger] out[i]).0 by {
            if i < before.len() {
                assert(out[i] == before[i]);
                let j = choose|j: int|
                    0 <= j < short.len() && (#[trigger] found[j]).canonical is Some
                        && found[j].canonical->0@ == before[i].0;
                assert(found[j].canonical->0@ == out[i].0);
            } else {
                assert(found[n].canonical->0@ == out[i].0);
            }
        }
    }
}

/// Whether volumes may be asked for together: up to eight, each named by 1 to
/// 32 lower-case letters, digits, hyphens and underscores, but not `data`, no
/// name twice, and of 1 to 2048 GiB.
pub open spec fn may_be_asked_for(vols: Seq<(Seq<char>, u64)>) -> bool {
    &&& vols.len() <= 8
    &&& forall|i: int|
        0 <= i < vols.len() ==> 1 <= (#[trigger] vols[i]).0.len() <= 32 && vols[i].0 != "data"@
            && 1 <= vols[i].1 <= 2048
    &&& forall|i: int, k: int|
        0 <= i < vols.len() && 0 <= k < vols[i].0.len() ==> ({
            let c = #[trigger] vols[i].0[k];
            'a' <= c <= 'z' || '0' <= c <= '9' || c == '-' || c == '_'
        })
    &&& forall|i: int, j: int|
        0 <= i < j < vols.len() ==> (#[trigger] vols[i]).0 != (#[trigger] vols[j]).0
}

/// How a row of volumes is written as options.
pub open spec fn as_options(vols: Seq<(Seq<char>, u64)>) -> Seq<Seq<char>> {
    vols.map_values(
        |v: (Seq<char>, u64)| v.0 + ":"@ + crate::text::decimal(v.1 as nat),
    )
}

/// Volumes that may be asked for are read from their options as they are, in
/// order.
pub proof fn volumes_are_read_as_written(vols: Seq<(Seq<char>, u64)>)
    requires
        may_be_asked_for(vols),
    ensures
        volumes_of(as_options(vols)) == Ok::<Seq<(Seq<char>, u64)>, VesselErrorView>(vols),
{
    lemma_volumes_read(vols);
}

proof fn lemma_volumes_read(vols: Seq<(Seq<char>, u64)>)
    requires
        may_be_asked_for(vols),
    ensures
        volumes_so_far(as_options(vols)) == Ok::<Seq<(Seq<char>, u64)>, VesselErrorView>(vols),
    decreases vols.len(),
{
    let specs = as_options(vols);
    if vols.len() == 0 {
        assert(vols =~= Seq::empty());
        assert(specs =~= Seq::empty());
    } else {
        let short = vols.drop_last();
        let n = vols.len() - 1;
        assert forall|i: int| 0 <= i < short.len() implies #[trigger] short[i] == vols[i] by {}
        assert(may_be_asked_for(short));
        lemma_volumes_read(short);
        assert(as_options(short) =~= specs.drop_last());
        let (name, gib) = vols[n];
        let d = crate::text::decimal(gib as nat);
        let s = name + ":"@ + d;
        assert(specs.last() == s);
        reveal_strlit(":");
        lemma_first_of(s, ':');
        assert(s[name.len() as int] == ':');
        assert forall|k: int| 0 <= k < name.len() implies #[trigger] s[k] != ':' by {
            assert(s[k] == vols[n].0[k]);
        }
        assert(first_of(s, ':') == Some(name.len() as int));
        assert(s.take(name.len() as int) =~= name);
        assert(s.skip(name.len() as int + 1) =~= d);
        crate::text::decimal_reads_back(gib as nat);
        assert(crate::text::parse_dec(d, u64::MAX as nat) == Some(gib as nat));
        assert(volume_name_ok(name)) by {
            assert forall|k: int| 0 <= k < name.len() implies volume_char(#[trigger] name[k]) by {
                assert(vols[n].0[k] == name[k]);
            }
        }
        assert(!has_volume(short, name)) by {
            if has_volume(short, name) {
                let i = choose|i: int| 0 <= i < short.len() && (#[trigger] short[i]).0 == name;
                assert(vols[i].0 == vols[n].0);
            }
        }
        assert(short.push((name, gib)) =~= vols);
    }
}

/// What is accepted may be asked for, and each option is the name of its
/// volume, a colon and the size.
pub proof fn accepted_volumes_are_what_was_written(specs: Seq<Seq<char>>, k: int)
    requires
        volumes_of(specs) is Ok,
        0 <= k < specs.len(),
    ensures
        may_be_asked_for(volumes_of(specs)->Ok_0),
        volumes_of(specs)->Ok_0.len() == specs.len(),
        exists|size: Seq<char>|
            specs[k] == #[trigger] (volumes_of(specs)->Ok_0[k].0.push(':') + size)
                && crate::text::parse_dec(size, u64::MAX as nat) == Some(
                volumes_of(specs)->Ok_0[k].1 as nat,
            ),
{
    let v = volumes_of(specs)->Ok_0;
    accepted_volumes_are_sound(specs);
    assert forall|i: int, j: int| 0 <= i < v.len() && 0 <= j < v[i].0.len() implies ({
        let c = #[trigger] v[i].0[j];
        'a' <= c <= 'z' || '0' <= c <= '9' || c == '-' || c == '_'
    }) by {
        assert(volume_name_ok(v[i].0));
        assert(volume_char(v[i].0[j]));
    }
    assert forall|i: int| 0 <= i < v.len() implies 1 <= (#[trigger] v[i]).0.len() <= 32 by {
        assert(volume_name_ok(v[i].0));
    }
    lemma_option_written(specs, k);
}

proof fn lemma_option_written(specs: Seq<Seq<char>>, k: int)
    requires
        volumes_so_far(specs) is Ok,
        0 <= k < specs.len(),
    ensures
        volumes_so_far(specs)->Ok_0.len() == specs.len(),
        exists|size: Seq<char>|
            specs[k] == #[trigger] (volumes_so_far(specs)->Ok_0[k].0.push(':') + size)
                && crate::text::parse_dec(size, u64::MAX as nat) == Some(
                volumes_so_far(specs)->Ok_0[k].1 as nat,
            ),
    decreases specs.len(),
{
    let short = specs.drop_last();
    let n = specs.len() - 1;
    lemma_volumes_sound(specs);
    let (before, v) = (volumes_so_far(short)->Ok_0, volumes_so_far(specs)->Ok_0);
    if k < n {
        lemma_option_written(short, k);
        assert(short[k] == specs[k]);
        assert(v[k] == before[k]);
    } else {
        let s = specs[k];
        lemma_first_of(s, ':');
        let i = first_of(s, ':')->0;
        let size = s.skip(i + 1);
        assert(v[k] == v[v.len() - 1]);
        assert(s =~= v[k].0.push(':') + size);
    }
}

/// A vessel's name is one or more letters, digits, hyphens and underscores, and
/// none of the engine's names; whatever is no such name is refused.
pub proof fn what_a_vessel_may_be_called(name: Seq<char>)
    ensures
        name_problem(name) is None <==> (name.len() > 0 && (forall|i: int|
            0 <= i < name.len() ==> ({
                let c = #[trigger] name[i];
                'a' <= c <= 'z' || 'A' <= c <= 'Z' || '0' <= c <= '9' || c == '-' || c == '_'
            })) && name != "vessel"@ && name != "default"@ && name != "engine"@ && name
            != "nebula"@),
        name == "vessel"@ || name == "default"@ || name == "engine"@ || name == "nebula"@
            ==> name_problem(name) == Some(VesselErrorView::Engine { name }),
{
    if crate::spec::plain_name(name) {
        assert forall|i: int| 0 <= i < name.len() implies ({
            let c = #[trigger] name[i];
            'a' <= c <= 'z' || 'A' <= c <= 'Z' || '0' <= c <= '9' || c == '-' || c == '_'
        }) by {
            assert(crate::spec::name_char(name[i]));
        }
    }
}

/// Vessels of different names are in different directories, and so are the
/// snapshots of one vessel with different labels.
pub proof fn directories_do_not_clash(home: Seq<char>, a: Seq<char>, b: Seq<char>)
    requires
        name_problem(a) is None,
        name_problem(b) is None,
        a != b,
    ensures
        vessel_dir(home, a) != vessel_dir(home, b),
        snapshot_dir(home, a) != snapshot_dir(home, b),
{
    lemma_plain(a);
    lemma_plain(b);
    crate::paths::joined_paths_take_apart(joined_path(home, "vessels"@), a, b);
    crate::paths::joined_paths_take_apart(joined_path(home, "snapshots"@), a, b);
}

proof fn lemma_plain(name: Seq<char>)
    requires
        name_problem(name) is None,
    ensures
        crate::paths::plain_file(name),
{
    reveal_strlit(".");
    reveal_strlit("..");
    assert(crate::spec::name_char(name[0]));
    assert forall|i: int| 0 <= i < name.len() implies name[i] != '/' && name[i] != '.' by {
        assert(crate::spec::name_char(name[i]));
    }
}

} // verus!

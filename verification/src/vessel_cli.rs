//! What the command line says and decides about vessels.

use crate::branch::BranchOutcome;
use crate::lifecycle::{StartOutcome, StopOutcome, VesselSummary};
use crate::paths::{file_name, join, joined_path};
use crate::proto::{Health, MemStats};
use crate::snapshots::{DiskOnlyReason, RestoreOutcome, SnapshotInfo, SnapshotOutcome};
use crate::spec::VmSpec;
use crate::text::{
    cat2, cat3, cat4, cat5, decimal_str, join as join_text, owned, push_line, signed_str,
    strip_prefix, to_chars,
};
use crate::vessels::{dir_of, is_engine, parse_volumes, VesselError, VesselErrorView};
use vstd::prelude::*;

verus! {

// A new vessel

/// What is asked for on the command line.
#[derive(Debug)]
pub struct NewOpts {
    pub name: String,
    pub cpus: u32,
    pub mem: u64,
    pub gpu: bool,
    /// Build the root filesystem from a docker image.
    pub from_image: Option<String>,
    /// Clone the root filesystem from a prepared file.
    pub rootfs_img: Option<String>,
    /// Extra volumes, as `name:GiB`.
    pub volumes: Vec<String>,
}

/// Why a vessel is not made.
#[derive(Debug)]
pub enum NewError {
    BothSources,
    Vessel(VesselError),
    Exists(String),
    NoRootfs(String),
}

impl NewError {
    pub fn message(&self) -> (s: String)
        ensures
            s@ == (match *self {
                NewError::BothSources => "--from-image and --rootfs-img are mutually exclusive"@,
                NewError::Vessel(e) => e@.text(),
                NewError::Exists(name) => "vessel `"@ + name@
                    + "` already exists (nebula vessels rm "@ + name@ + " to recreate)"@,
                NewError::NoRootfs(p) => "no rootfs image at "@ + p@,
            }),
    {
        match self {
            NewError::BothSources => owned("--from-image and --rootfs-img are mutually exclusive"),
            NewError::Vessel(e) => e.message(),
            NewError::Exists(name) => cat5(
                "vessel `",
                name.as_str(),
                "` already exists (nebula vessels rm ",
                name.as_str(),
                " to recreate)",
            ),
            NewError::NoRootfs(p) => cat2("no rootfs image at ", p.as_str()),
        }
    }
}

/// Where the root filesystem of a new vessel comes from.
#[derive(Debug)]
pub enum RootfsFrom {
    /// It is built from a docker image.
    Image(String),
    /// It is unpacked or cloned from a file.
    File(String),
    /// It is cloned from the installed base image.
    Base,
}

/// What a new vessel takes: its directory, volumes and root filesystem.
#[derive(Debug)]
pub struct NewPlan {
    pub dir: String,
    pub volumes: Vec<(String, u64)>,
    pub rootfs: RootfsFrom,
}

/// What a new vessel is made of, or why it is refused.
pub open spec fn new_checked(
    home: Seq<char>,
    opts: NewOpts,
    dir_exists: bool,
    rootfs_there: bool,
    r: Result<NewPlan, NewError>,
) -> bool {
    let volumes = crate::vessels::volumes_of(crate::text::views(opts.volumes@));
    let both = opts.from_image is Some && opts.rootfs_img is Some;
    let refused = crate::vessels::name_problem(opts.name@);
    match r {
        Ok(p) => !both && volumes is Ok && refused is None && !dir_exists && p.dir@
            == crate::vessels::vessel_dir(home, opts.name@) && volumes
            == Ok::<Seq<(Seq<char>, u64)>, VesselErrorView>(
            crate::vessels::volume_views(p.volumes@),
        ) && match p.rootfs {
            RootfsFrom::Image(i) => opts.from_image is Some && i@ == opts.from_image->0@,
            RootfsFrom::File(f) => opts.from_image is None && opts.rootfs_img is Some
                && rootfs_there && f@ == opts.rootfs_img->0@,
            RootfsFrom::Base => opts.from_image is None && opts.rootfs_img is None,
        },
        Err(NewError::BothSources) => both,
        Err(NewError::Vessel(e)) => !both && (volumes is Err && volumes->Err_0 == e@
            || volumes is Ok && refused == Some(e@)),
        Err(NewError::Exists(n)) => !both && volumes is Ok && refused is None && dir_exists
            && n@ == opts.name@,
        Err(NewError::NoRootfs(p)) => !both && volumes is Ok && refused is None
            && !dir_exists && opts.from_image is None && opts.rootfs_img is Some
            && !rootfs_there && p@ == opts.rootfs_img->0@,
    }
}

/// Decide on a new vessel. A directory that exists is never touched.
pub fn new(home: &str, opts: &NewOpts, dir_exists: bool, rootfs_there: bool) -> (r: Result<
    NewPlan,
    NewError,
>)
    ensures
        new_checked(home@, *opts, dir_exists, rootfs_there, r),
{
    if opts.from_image.is_some() && opts.rootfs_img.is_some() {
        return Err(NewError::BothSources);
    }
    let volumes: Vec<(String, u64)> = match parse_volumes(&opts.volumes) {
        Ok(v) => v,
        Err(e) => {
            return Err(NewError::Vessel(e));
        },
    };
    let dir: String = match dir_of(home, opts.name.as_str()) {
        Ok(d) => d,
        Err(e) => {
            return Err(NewError::Vessel(e));
        },
    };
    if dir_exists {
        return Err(NewError::Exists(owned(opts.name.as_str())));
    }
    let rootfs: RootfsFrom = match &opts.from_image {
        Some(i) => RootfsFrom::Image(owned(i.as_str())),
        None => match &opts.rootfs_img {
            Some(f) => {
                if !rootfs_there {
                    return Err(NewError::NoRootfs(owned(f.as_str())));
                }
                RootfsFrom::File(owned(f.as_str()))
            },
            None => RootfsFrom::Base,
        },
    };
    Ok(NewPlan { dir, volumes, rootfs })
}

/// A volume as it is told.
pub open spec fn volume_word(v: (Seq<char>, u64)) -> Seq<char> {
    "/mnt/"@ + v.0 + " ("@ + crate::text::decimal(v.1 as nat) + "G)"@
}

fn volume_words(volumes: &Vec<(String, u64)>) -> (r: Vec<String>)
    ensures
        crate::text::views(r@) == crate::vessels::volume_views(volumes@).map_values(
            |v: (Seq<char>, u64)| volume_word(v),
        ),
{
    let ghost want = crate::vessels::volume_views(volumes@).map_values(
        |v: (Seq<char>, u64)| volume_word(v),
    );
    let mut out: Vec<String> = Vec::new();
    let mut i: usize = 0;
    assert(crate::text::views(out@) =~= want.take(0));
    while i < volumes.len()
        invariant
            i <= volumes@.len(),
            want == crate::vessels::volume_views(volumes@).map_values(
                |v: (Seq<char>, u64)| volume_word(v),
            ),
            crate::text::views(out@) == want.take(i as int),
        decreases volumes@.len() - i,
    {
        push_line(
            &mut out,
            cat5(
                "/mnt/",
                volumes[i].0.as_str(),
                " (",
                decimal_str(volumes[i].1).as_str(),
                "G)",
            ),
        );
        proof {
            assert(want[i as int] == volume_word(
                crate::vessels::volume_views(volumes@)[i as int],
            ));
            assert(want.take(i as int).push(want[i as int]) =~= want.take(i as int + 1));
        }
        i = i + 1;
    }
    assert(want.take(volumes@.len() as int) =~= want);
    out
}

/// What is said of a vessel that was made.
pub fn created_line(opts: &NewOpts, volumes: &Vec<(String, u64)>) -> (s: String)
    ensures
        s@ == "created vessel `"@ + opts.name@ + "` ("@ + crate::text::decimal(opts.cpus as nat)
            + " cpus, "@ + crate::text::decimal(crate::spike::krun_floor(opts.mem) as nat)
            + " MiB"@ + (if opts.gpu {
            ", gpu"@
        } else {
            ""@
        }) + (if volumes@.len() == 0 {
            ""@
        } else {
            ", volumes: "@ + crate::text::joined(
                crate::vessels::volume_views(volumes@).map_values(
                    |v: (Seq<char>, u64)| volume_word(v),
                ),
                " "@,
            )
        }) + ")"@,
{
    let mut s: String = cat5(
        "created vessel `",
        opts.name.as_str(),
        "` (",
        decimal_str(opts.cpus as u64).as_str(),
        " cpus, ",
    );
    s.append(decimal_str(crate::spike::at_least_a_gib(opts.mem)).as_str());
    s.append(" MiB");
    s.append(
        if opts.gpu {
            ", gpu"
        } else {
            ""
        },
    );
    let told: String = if volumes.len() == 0 {
        owned("")
    } else {
        cat2(", volumes: ", join_text(&volume_words(volumes), " ").as_str())
    };
    s.append(told.as_str());
    s.append(")");
    s
}

// Starting and stopping

/// What is said of a start.
pub fn started_lines(name: &str, outcome: &StartOutcome) -> (r: Vec<String>)
    ensures
        crate::text::views(r@) == (match *outcome {
            StartOutcome::AlreadyRunning => seq!["vessel `"@ + name@ + "` is already running"@],
            StartOutcome::Started(s) => seq![
                "vessel `"@ + name@ + "` "@ + (if s.resumed {
                    "resumed"@
                } else {
                    "up"@
                }) + " in "@ + crate::text::decimal(s.boot_ms as nat) + "ms (kernel "@ + s.kernel@
                    + ", agent v"@ + s.agent_version@ + ")"@,
                "  shell: nebula vessels shell "@ + name@,
            ],
        }),
{
    let mut out: Vec<String> = Vec::new();
    match outcome {
        StartOutcome::AlreadyRunning => {
            push_line(&mut out, cat3("vessel `", name, "` is already running"));
            assert(crate::text::views(out@) =~= seq![
                "vessel `"@ + name@ + "` is already running"@,
            ]);
        },
        StartOutcome::Started(s) => {
            let how: &str = if s.resumed {
                "resumed"
            } else {
                "up"
            };
            let mut line: String = cat5("vessel `", name, "` ", how, " in ");
            line.append(decimal_str(s.boot_ms).as_str());
            line.append("ms (kernel ");
            line.append(s.kernel.as_str());
            line.append(", agent v");
            line.append(s.agent_version.as_str());
            line.append(")");
            push_line(&mut out, line);
            push_line(&mut out, cat2("  shell: nebula vessels shell ", name));
            assert(crate::text::views(out@) =~= seq![
                line@,
                "  shell: nebula vessels shell "@ + name@,
            ]);
        },
    }
    out
}

/// What is said of a stop.
pub fn stopped_line(name: &str, outcome: StopOutcome) -> (s: String)
    ensures
        s@ == "vessel `"@ + name@ + (match outcome {
            StopOutcome::NotRunning => "` is not running"@,
            StopOutcome::Stopped => "` stopped"@,
            StopOutcome::Forced => "` stopped (forced)"@,
        }),
{
    let how: &str = match outcome {
        StopOutcome::NotRunning => "` is not running",
        StopOutcome::Stopped => "` stopped",
        StopOutcome::Forced => "` stopped (forced)",
    };
    cat3("vessel `", name, how)
}

// Putting a root filesystem back

/// One step of putting a root filesystem back.
#[derive(Debug)]
pub enum ResetStep {
    StopEngine,
    StopVessel,
    RemoveFile(String),
    CloneFile { from: String, to: String },
    /// An empty file of the old one's size.
    EmptyFile(String),
    Say(String),
    StartEngine,
    StartVessel,
}

pub enum ResetView {
    StopEngine,
    StopVessel,
    RemoveFile(Seq<char>),
    CloneFile { from: Seq<char>, to: Seq<char> },
    EmptyFile(Seq<char>),
    Say(Seq<char>),
    StartEngine,
    StartVessel,
}

impl View for ResetStep {
    type V = ResetView;

    open spec fn view(&self) -> ResetView {
        match *self {
            ResetStep::StopEngine => ResetView::StopEngine,
            ResetStep::StopVessel => ResetView::StopVessel,
            ResetStep::RemoveFile(p) => ResetView::RemoveFile(p@),
            ResetStep::CloneFile { from, to } => ResetView::CloneFile { from: from@, to: to@ },
            ResetStep::EmptyFile(p) => ResetView::EmptyFile(p@),
            ResetStep::Say(m) => ResetView::Say(m@),
            ResetStep::StartEngine => ResetView::StartEngine,
            ResetStep::StartVessel => ResetView::StartVessel,
        }
    }
}

pub open spec fn reset_views(v: Seq<ResetStep>) -> Seq<ResetView> {
    v.map_values(|s: ResetStep| s@)
}

/// A step that is taken only where something holds.
pub open spec fn only(holds: bool, steps: Seq<ResetView>) -> Seq<ResetView> {
    if holds {
        steps
    } else {
        Seq::empty()
    }
}

pub open spec fn pristine_of(home: Seq<char>) -> Seq<char> {
    joined_path(home, "images/rootfs-pristine.img"@)
}

/// Putting the engine's root filesystem back.
pub open spec fn engine_reset(home: Seq<char>, running: bool, wipe: bool) -> Seq<ResetView> {
    let live = joined_path(home, "disks/rootfs.img"@);
    only(running, seq![ResetView::Say("stopping the engine…"@), ResetView::StopEngine]) + seq![
        ResetView::RemoveFile(live),
        ResetView::CloneFile { from: pristine_of(home), to: live },
    ] + only(
        wipe,
        seq![
            ResetView::RemoveFile(joined_path(home, "disks/data.img"@)),
            ResetView::Say("data disk wiped (containers/images/k8s state gone)"@),
        ],
    ) + seq![ResetView::Say("engine rootfs restored to pristine"@)] + only(
        running,
        seq![ResetView::StartEngine],
    )
}

/// Putting a vessel's root filesystem back.
pub open spec fn vessel_reset(
    home: Seq<char>,
    dir: Seq<char>,
    name: Seq<char>,
    running: bool,
    wipe: bool,
) -> Seq<ResetView> {
    let live = joined_path(dir, "rootfs.img"@);
    let data = joined_path(dir, "data.img"@);
    only(running, seq![ResetView::StopVessel]) + seq![
        ResetView::RemoveFile(live),
        ResetView::CloneFile { from: pristine_of(home), to: live },
    ] + only(
        wipe,
        seq![
            ResetView::RemoveFile(data),
            ResetView::EmptyFile(data),
            ResetView::Say("data disk wiped"@),
        ],
    ) + seq![ResetView::Say("vessel `"@ + name + "` rootfs restored to pristine"@)] + only(
        running,
        seq![ResetView::StartVessel],
    )
}

fn push_reset(out: &mut Vec<ResetStep>, s: ResetStep)
    ensures
        reset_views(final(out)@) == reset_views(old(out)@).push(s@),
{
    let ghost before = reset_views(out@);
    out.push(s);
    assert(reset_views(out@) =~= before.push(s@));
}

/// Why a root filesystem is not put back.
#[derive(Debug)]
pub enum ResetError {
    NoPristine(String),
    Vessel(VesselError),
    NoVessel(String),
}

impl ResetError {
    pub fn message(&self) -> (s: String)
        ensures
            s@ == (match *self {
                ResetError::NoPristine(p) => "no pristine image at "@ + p@
                    + " — run `nebula install-image` once"@,
                ResetError::Vessel(e) => e@.text(),
                ResetError::NoVessel(n) => "no vessel named `"@ + n@ + "`"@,
            }),
    {
        match self {
            ResetError::NoPristine(p) => cat3(
                "no pristine image at ",
                p.as_str(),
                " — run `nebula install-image` once",
            ),
            ResetError::Vessel(e) => e.message(),
            ResetError::NoVessel(n) => cat3("no vessel named `", n.as_str(), "`"),
        }
    }
}

/// What putting a vessel back comes to.
pub open spec fn reset_checked(
    home: Seq<char>,
    name: Seq<char>,
    wipe_data: bool,
    pristine_there: bool,
    dir_exists: bool,
    running: bool,
    r: Result<Vec<ResetStep>, ResetError>,
) -> bool {
    let engine = crate::vessels::engine_name(name);
    let refused = crate::vessels::name_problem(name);
    match r {
        Ok(steps) => pristine_there && (if engine {
            reset_views(steps@) == engine_reset(home, running, wipe_data)
        } else {
            refused is None && dir_exists && reset_views(steps@) == vessel_reset(
                home,
                crate::vessels::vessel_dir(home, name),
                name,
                running,
                wipe_data,
            )
        }),
        Err(ResetError::NoPristine(p)) => !pristine_there && p@ == pristine_of(home),
        Err(ResetError::Vessel(e)) => pristine_there && !engine && refused == Some(e@),
        Err(ResetError::NoVessel(n)) => pristine_there && !engine && refused is None
            && !dir_exists && n@ == name,
    }
}

/// Plan to put a root filesystem back from the untouched image. The data disk
/// is kept unless it is to be wiped.
pub fn reset(
    home: &str,
    name: &str,
    wipe_data: bool,
    pristine_there: bool,
    dir_exists: bool,
    running: bool,
) -> (r: Result<Vec<ResetStep>, ResetError>)
    ensures
        reset_checked(home@, name@, wipe_data, pristine_there, dir_exists, running, r),
{
    let pristine: String = join(home, "images/rootfs-pristine.img");
    if !pristine_there {
        return Err(ResetError::NoPristine(pristine));
    }
    let mut out: Vec<ResetStep> = Vec::new();
    assert(reset_views(out@) =~= Seq::empty());
    if is_engine(name) {
        let live: String = join(home, "disks/rootfs.img");
        if running {
            push_reset(&mut out, ResetStep::Say(owned("stopping the engine…")));
            push_reset(&mut out, ResetStep::StopEngine);
        }
        push_reset(&mut out, ResetStep::RemoveFile(owned(live.as_str())));
        push_reset(&mut out, ResetStep::CloneFile { from: pristine, to: live });
        if wipe_data {
            push_reset(&mut out, ResetStep::RemoveFile(join(home, "disks/data.img")));
            push_reset(
                &mut out,
                ResetStep::Say(owned("data disk wiped (containers/images/k8s state gone)")),
            );
        }
        push_reset(&mut out, ResetStep::Say(owned("engine rootfs restored to pristine")));
        if running {
            push_reset(&mut out, ResetStep::StartEngine);
        }
        assert(reset_views(out@) =~= engine_reset(home@, running, wipe_data));
        return Ok(out);
    }
    let dir: String = match dir_of(home, name) {
        Ok(d) => d,
        Err(e) => {
            return Err(ResetError::Vessel(e));
        },
    };
    if !dir_exists {
        return Err(ResetError::NoVessel(owned(name)));
    }
    let live: String = join(dir.as_str(), "rootfs.img");
    let data: String = join(dir.as_str(), "data.img");
    if running {
        push_reset(&mut out, ResetStep::StopVessel);
    }
    push_reset(&mut out, ResetStep::RemoveFile(owned(live.as_str())));
    push_reset(&mut out, ResetStep::CloneFile { from: pristine, to: live });
    if wipe_data {
        push_reset(&mut out, ResetStep::RemoveFile(owned(data.as_str())));
        push_reset(&mut out, ResetStep::EmptyFile(data));
        push_reset(&mut out, ResetStep::Say(owned("data disk wiped")));
    }
    push_reset(
        &mut out,
        ResetStep::Say(cat3("vessel `", name, "` rootfs restored to pristine")),
    );
    if running {
        push_reset(&mut out, ResetStep::StartVessel);
    }
    assert(reset_views(out@) =~= vessel_reset(home@, dir@, name@, running, wipe_data));
    Ok(out)
}

/// Without a wish to wipe it, putting a root filesystem back leaves every data
/// disk alone: no step names a file but the root filesystem's.
pub proof fn data_is_kept(home: Seq<char>, dir: Seq<char>, name: Seq<char>, running: bool, i: int)
    ensures
        ({
            let steps = vessel_reset(home, dir, name, running, false);
            0 <= i < steps.len() ==> match steps[i] {
                ResetView::RemoveFile(p) => p == joined_path(dir, "rootfs.img"@),
                ResetView::CloneFile { from, to } => to == joined_path(dir, "rootfs.img"@),
                ResetView::EmptyFile(p) => false,
                _ => true,
            }
        }),
        ({
            let steps = engine_reset(home, running, false);
            0 <= i < steps.len() ==> match steps[i] {
                ResetView::RemoveFile(p) => p == joined_path(home, "disks/rootfs.img"@),
                ResetView::CloneFile { from, to } => to == joined_path(home, "disks/rootfs.img"@),
                ResetView::EmptyFile(p) => false,
                _ => true,
            }
        }),
{
}

// Snapshots

/// What is said of a snapshot; `secs` is its duration in words.
pub fn snapshot_lines(name: &str, label: &str, outcome: &SnapshotOutcome, secs: &str) -> (r: Vec<
    String,
>)
    ensures
        crate::text::views(r@) == (match *outcome {
            SnapshotOutcome::Memory { ms, state_mb } => seq![
                "memory snapshot `"@ + name@ + "@"@ + label@ + "` taken in "@ + secs@ + "s ("@
                    + crate::text::decimal(state_mb as nat)
                    + " MiB state, vessel never stopped)"@,
            ],
            SnapshotOutcome::DiskOnly { ms, reason } => (match reason {
                DiskOnlyReason::BackendUnsupported => seq![
                    "note: disk-only snapshot — live memory capture isn't supported for this vessel's backend on this platform yet"@,
                ],
                DiskOnlyReason::NotRunning => seq![
                    "note: vessel is stopped — disk-only snapshot (start it to capture memory)"@,
                ],
                DiskOnlyReason::Requested => Seq::empty(),
            }).push("snapshot `"@ + name@ + "@"@ + label@ + "` taken in "@ + secs@ + "s"@),
        }),
{
    let mut out: Vec<String> = Vec::new();
    match outcome {
        SnapshotOutcome::Memory { ms, state_mb } => {
            let mut line: String = cat5("memory snapshot `", name, "@", label, "` taken in ");
            line.append(secs);
            line.append("s (");
            line.append(decimal_str(*state_mb).as_str());
            line.append(" MiB state, vessel never stopped)");
            push_line(&mut out, line);
            assert(crate::text::views(out@) =~= seq![line@]);
        },
        SnapshotOutcome::DiskOnly { ms, reason } => {
            match reason {
                DiskOnlyReason::BackendUnsupported => {
                    push_line(
                        &mut out,
                        owned(
                            "note: disk-only snapshot — live memory capture isn't supported for this vessel's backend on this platform yet",
                        ),
                    );
                },
                DiskOnlyReason::NotRunning => {
                    push_line(
                        &mut out,
                        owned(
                            "note: vessel is stopped — disk-only snapshot (start it to capture memory)",
                        ),
                    );
                },
                DiskOnlyReason::Requested => {},
            }
            assert(crate::text::views(out@) =~= (match *reason {
                DiskOnlyReason::BackendUnsupported => seq![
                    "note: disk-only snapshot — live memory capture isn't supported for this vessel's backend on this platform yet"@,
                ],
                DiskOnlyReason::NotRunning => seq![
                    "note: vessel is stopped — disk-only snapshot (start it to capture memory)"@,
                ],
                DiskOnlyReason::Requested => Seq::empty(),
            }));
            let mut line: String = cat5("snapshot `", name, "@", label, "` taken in ");
            line.append(secs);
            line.append("s");
            push_line(&mut out, line);
        },
    }
    out
}

/// A snapshot in a list.
pub open spec fn snapshot_entry(name: Seq<char>, s: SnapshotInfo) -> Seq<char> {
    if s.memory {
        name + "@"@ + s.label@ + "  (disks + memory state)"@
    } else {
        name + "@"@ + s.label@
    }
}

/// The snapshots of a vessel, line by line.
pub fn snapshots_lines(name: &str, list: &Vec<SnapshotInfo>) -> (r: Vec<String>)
    ensures
        crate::text::views(r@) == (if list@.len() == 0 {
            seq![
                "no snapshots for `"@ + name@ + "` (create one: nebula vessels snapshot "@ + name@
                    + " <label>)"@,
            ]
        } else {
            list@.map_values(|s: SnapshotInfo| snapshot_entry(name@, s))
        }),
{
    let mut out: Vec<String> = Vec::new();
    if list.len() == 0 {
        push_line(
            &mut out,
            cat5(
                "no snapshots for `",
                name,
                "` (create one: nebula vessels snapshot ",
                name,
                " <label>)",
            ),
        );
        assert(crate::text::views(out@) =~= seq![
            "no snapshots for `"@ + name@ + "` (create one: nebula vessels snapshot "@ + name@
                + " <label>)"@,
        ]);
        return out;
    }
    let ghost want = list@.map_values(|s: SnapshotInfo| snapshot_entry(name@, s));
    let mut i: usize = 0;
    assert(crate::text::views(out@) =~= want.take(0));
    while i < list.len()
        invariant
            i <= list@.len(),
            want == list@.map_values(|s: SnapshotInfo| snapshot_entry(name@, s)),
            crate::text::views(out@) == want.take(i as int),
        decreases list@.len() - i,
    {
        let line: String = if list[i].memory {
            cat4(name, "@", list[i].label.as_str(), "  (disks + memory state)")
        } else {
            cat3(name, "@", list[i].label.as_str())
        };
        push_line(&mut out, line);
        proof {
            assert(want[i as int] == snapshot_entry(name@, list@[i as int]));
            assert(want.take(i as int).push(want[i as int]) =~= want.take(i as int + 1));
        }
        i = i + 1;
    }
    assert(want.take(list@.len() as int) =~= want);
    out
}

/// What is said of a roll back: the warning, and the line.
pub fn restored_lines(name: &str, label: &str, end: &RestoreOutcome) -> (r: (Option<String>, String))
    ensures
        ({
            let (warning, line) = r;
            crate::text::opt_view(warning) == (match *end {
                RestoreOutcome::ColdBootFallback { resume_error } => Some(
                    "memory-state resume failed ("@ + resume_error@
                        + "); cold-booted the restored disks instead"@,
                ),
                _ => None,
            }) && line@ == "`"@ + name@ + "` restored to @"@ + label@ + (match *end {
                RestoreOutcome::LiveResume => " (live resume — processes/RAM intact)"@,
                _ => ""@,
            })
        }),
{
    let (warning, tail): (Option<String>, &str) = match end {
        RestoreOutcome::LiveResume => (None, " (live resume — processes/RAM intact)"),
        RestoreOutcome::ColdBootFallback { resume_error } => (
            Some(
                cat3(
                    "memory-state resume failed (",
                    resume_error.as_str(),
                    "); cold-booted the restored disks instead",
                ),
            ),
            "",
        ),
        RestoreOutcome::DiskRestore { restarted } => (None, ""),
    };
    (warning, cat5("`", name, "` restored to @", label, tail))
}

/// What is said of branches; `secs` is their duration in words.
pub fn branched_line(name: &str, label: &Option<String>, out: &BranchOutcome, secs: &str) -> (s:
    String)
    ensures
        s@ == "branched "@ + crate::text::decimal(out.vessels@.len()) + " vessel(s) from `"@ + name@
            + (match *label {
            Some(l) => "@"@ + l@,
            None => ""@,
        }) + "` in "@ + secs@ + "s"@ + (if out.from_memory {
            " (live resume — each woke mid-execution)"@
        } else {
            ""@
        }),
{
    let n: usize = out.vessels.len();
    let at: String = match label {
        Some(l) => cat2("@", l.as_str()),
        None => owned(""),
    };
    let mut s: String = cat5(
        "branched ",
        decimal_str(n as u64).as_str(),
        " vessel(s) from `",
        name,
        at.as_str(),
    );
    s.append("` in ");
    s.append(secs);
    s.append("s");
    s.append(
        if out.from_memory {
            " (live resume — each woke mid-execution)"
        } else {
            ""
        },
    );
    s
}

// Lists

/// Text filled up with spaces on its right.
pub open spec fn left_aligned(s: Seq<char>, width: nat) -> Seq<char> {
    if s.len() < width {
        s + Seq::new((width - s.len()) as nat, |i: int| ' ')
    } else {
        s
    }
}

/// Text filled up with spaces on its left.
pub open spec fn right_aligned(s: Seq<char>, width: nat) -> Seq<char> {
    if s.len() < width {
        Seq::new((width - s.len()) as nat, |i: int| ' ') + s
    } else {
        s
    }
}

fn spaces(n: usize) -> (s: String)
    ensures
        s@ == Seq::new(n as nat, |i: int| ' '),
{
    let mut s: String = owned("");
    proof {
        reveal_strlit("");
        reveal_strlit(" ");
        assert(s@ =~= Seq::new(0, |i: int| ' '));
    }
    let mut i: usize = 0;
    while i < n
        invariant
            i <= n,
            " "@ == seq![' '],
            s@ == Seq::new(i as nat, |i: int| ' '),
        decreases n - i,
    {
        s.append(" ");
        assert(s@ =~= Seq::new(i as nat + 1, |i: int| ' '));
        i = i + 1;
    }
    s
}

fn fill_right(s: &str, width: usize) -> (r: String)
    ensures
        r@ == left_aligned(s@, width as nat),
{
    let n: usize = to_chars(s).len();
    if n < width {
        cat2(s, spaces(width - n).as_str())
    } else {
        owned(s)
    }
}

fn fill_left(s: &str, width: usize) -> (r: String)
    ensures
        r@ == right_aligned(s@, width as nat),
{
    let n: usize = to_chars(s).len();
    if n < width {
        cat2(spaces(width - n).as_str(), s)
    } else {
        owned(s)
    }
}

/// A row of the list of vessels, before its notes.
pub open spec fn row(
    name: Seq<char>,
    state: Seq<char>,
    cpus: Seq<char>,
    mem: Seq<char>,
    gpu: Seq<char>,
) -> Seq<char> {
    left_aligned(name, 14) + " "@ + left_aligned(state, 9) + " "@ + right_aligned(cpus, 5) + " "@
        + right_aligned(mem, 9) + " "@ + right_aligned(gpu, 5) + "  "@
}

fn make_row(name: &str, state: &str, cpus: &str, mem: &str, gpu: &str) -> (r: String)
    ensures
        r@ == row(name@, state@, cpus@, mem@, gpu@),
{
    let mut s: String = cat5(
        fill_right(name, 14).as_str(),
        " ",
        fill_right(state, 9).as_str(),
        " ",
        fill_left(cpus, 5).as_str(),
    );
    s.append(" ");
    s.append(fill_left(mem, 9).as_str());
    s.append(" ");
    s.append(fill_left(gpu, 5).as_str());
    s.append("  ");
    s
}

/// A vessel's row. The unit stands in the column of the memory.
pub open spec fn vessel_row(v: crate::lifecycle::SummaryView) -> Seq<char> {
    left_aligned(v.name, 14) + " "@ + left_aligned(
        if v.running {
            "running"@
        } else {
            "stopped"@
        },
        9,
    ) + " "@ + right_aligned(crate::text::decimal(v.cpus as nat), 5) + " "@ + right_aligned(
        crate::text::decimal(v.mem_mib as nat),
        8,
    ) + "M "@ + right_aligned(
        if v.gpu {
            "yes"@
        } else {
            "no"@
        },
        5,
    ) + "  "@
}

fn make_vessel_row(v: &VesselSummary) -> (r: String)
    ensures
        r@ == vessel_row(v@),
{
    let state: &str = if v.running {
        "running"
    } else {
        "stopped"
    };
    let gpu: &str = if v.gpu {
        "yes"
    } else {
        "no"
    };
    let mut s: String = cat5(
        fill_right(v.name.as_str(), 14).as_str(),
        " ",
        fill_right(state, 9).as_str(),
        " ",
        fill_left(decimal_str(v.cpus as u64).as_str(), 5).as_str(),
    );
    s.append(" ");
    s.append(fill_left(decimal_str(v.mem_mib).as_str(), 8).as_str());
    s.append("M ");
    s.append(fill_left(gpu, 5).as_str());
    s.append("  ");
    s
}

pub open spec fn summary_views(v: Seq<VesselSummary>) -> Seq<crate::lifecycle::SummaryView> {
    v.map_values(|s: VesselSummary| s@)
}

/// The list of vessels, the engine first.
pub fn ls_lines(engine_running: bool, list: &Vec<VesselSummary>) -> (r: Vec<String>)
    ensures
        crate::text::views(r@) == seq![
            row("NAME"@, "STATE"@, "CPUS"@, "MEM"@, "GPU"@) + "NOTES"@,
            row(
                "vessel"@,
                if engine_running {
                    "running"@
                } else {
                    "stopped"@
                },
                "-"@,
                "-"@,
                "-"@,
            ) + "engine (docker/k8s) — use nebula up/down"@,
        ] + summary_views(list@).map_values(|v: crate::lifecycle::SummaryView| vessel_row(v)),
{
    let state: &str = if engine_running {
        "running"
    } else {
        "stopped"
    };
    let mut out: Vec<String> = Vec::new();
    push_line(&mut out, cat2(make_row("NAME", "STATE", "CPUS", "MEM", "GPU").as_str(), "NOTES"));
    push_line(
        &mut out,
        cat2(
            make_row("vessel", state, "-", "-", "-").as_str(),
            "engine (docker/k8s) — use nebula up/down",
        ),
    );
    let ghost first = crate::text::views(out@);
    let ghost want = summary_views(list@).map_values(
        |v: crate::lifecycle::SummaryView| vessel_row(v),
    );
    let mut i: usize = 0;
    assert(first + want.take(0) =~= first);
    while i < list.len()
        invariant
            i <= list@.len(),
            want == summary_views(list@).map_values(
                |v: crate::lifecycle::SummaryView| vessel_row(v),
            ),
            crate::text::views(out@) == first + want.take(i as int),
        decreases list@.len() - i,
    {
        push_line(&mut out, make_vessel_row(&list[i]));
        proof {
            assert(want[i as int] == vessel_row(list@[i as int]@));
            assert(first + want.take(i as int + 1) =~= (first + want.take(i as int)).push(
                want[i as int],
            ));
        }
        i = i + 1;
    }
    assert(want.take(list@.len() as int) =~= want);
    assert(first =~= seq![
        row("NAME"@, "STATE"@, "CPUS"@, "MEM"@, "GPU"@) + "NOTES"@,
        row("vessel"@, state@, "-"@, "-"@, "-"@) + "engine (docker/k8s) — use nebula up/down"@,
    ]);
    out
}

// One vessel

/// A file's name without its extension.
pub open spec fn stem_of(name: Seq<char>) -> Seq<char> {
    match crate::vessels::last_of(name, '.') {
        Some(i) => if i == 0 || name == ".."@ {
            name
        } else {
            name.take(i)
        },
        None => name,
    }
}

/// Where an extra disk is mounted in the guest, as it is told.
pub open spec fn mount_note(path: Seq<char>) -> Seq<char> {
    match crate::paths::file_name_of(path) {
        Some(name) => match crate::text::after_prefix(stem_of(name), "vol-"@) {
            Some(n) => "  -> /mnt/"@ + n,
            None => ""@,
        },
        None => ""@,
    }
}

fn stem(name: &str) -> (r: String)
    ensures
        r@ == stem_of(name@),
{
    let v: Vec<char> = to_chars(name);
    match crate::vessels::find_last(&v, '.') {
        Some(i) => if i == 0 || crate::text::same(name, "..") {
            owned(name)
        } else {
            let r: String = crate::text::from_chars(&v, 0, i);
            assert(r@ =~= name@.take(i as int));
            r
        },
        None => owned(name),
    }
}

fn make_mount_note(path: &str) -> (r: String)
    ensures
        r@ == mount_note(path@),
{
    match file_name(path) {
        Some(name) => match strip_prefix(stem(name.as_str()).as_str(), "vol-") {
            Some(n) => cat2("  -> /mnt/", n.as_str()),
            None => owned(""),
        },
        None => owned(""),
    }
}

/// The lines about disks beyond the first two.
pub open spec fn extra_disks(disks: Seq<crate::spec::DiskView>) -> Seq<Seq<char>>
    decreases disks.len(),
{
    if disks.len() <= 2 {
        Seq::empty()
    } else {
        extra_disks(disks.drop_last()).push(
            "          "@ + disks.last().path + mount_note(disks.last().path),
        )
    }
}

/// What the guest told of itself.
#[derive(Debug)]
pub struct Live {
    pub pid: i32,
    pub health: Option<Health>,
    pub mem: Option<MemStats>,
}

/// What is told of a running vessel.
pub open spec fn live_lines(live: Live) -> Seq<Seq<char>> {
    seq!["pid:      "@ + crate::text::signed(live.pid as int)] + (match live.health {
        Some(h) => seq![
            "kernel:   "@ + h.kernel@ + " (agent v"@ + h.agent_version@ + ", up "@
                + crate::text::decimal(h.uptime_secs as nat) + "s)"@,
        ],
        None => Seq::empty(),
    }) + (match live.mem {
        Some(m) => seq![
            "memory:   "@ + crate::text::decimal(
                ((m.total_kib - m.available_kib) / 1024) as nat,
            ) + " / "@ + crate::text::decimal((m.total_kib / 1024) as nat) + " MiB used"@,
        ],
        None => Seq::empty(),
    })
}

/// What is told of a vessel.
pub open spec fn info_of(
    dir: Seq<char>,
    name: Seq<char>,
    spec: crate::spec::SpecView,
    live: Option<Live>,
) -> Seq<Seq<char>> {
    seq![
        "vessel:   "@ + name,
        "state:    "@ + (if live is Some {
            "running"@
        } else {
            "stopped"@
        }),
    ] + (match live {
        Some(l) => live_lines(l),
        None => Seq::empty(),
    }) + seq![
        "cpus:     "@ + crate::text::decimal(spec.cpus as nat),
        "mem:      "@ + crate::text::decimal(spec.mem_mib as nat) + " MiB"@,
        "backend:  "@ + crate::lifecycle::backend_of(spec),
        "gpu:      "@ + (if spec.gpu {
            "yes (virtio-gpu Venus)"@
        } else {
            "no"@
        }),
        "disks:    "@ + joined_path(dir, "rootfs.img"@),
        "          "@ + joined_path(dir, "data.img"@),
    ] + extra_disks(spec.disks) + seq!["console:  "@ + joined_path(dir, "console.log"@)]
}

fn push_live(out: &mut Vec<String>, live: &Live)
    requires
        live.mem is Some ==> live.mem->0.available_kib <= live.mem->0.total_kib,
    ensures
        crate::text::views(final(out)@) == crate::text::views(old(out)@) + live_lines(*live),
{
    let ghost start = crate::text::views(out@);
    push_line(out, cat2("pid:      ", signed_str(live.pid).as_str()));
    match &live.health {
        Some(h) => {
            let mut l: String = cat5(
                "kernel:   ",
                h.kernel.as_str(),
                " (agent v",
                h.agent_version.as_str(),
                ", up ",
            );
            l.append(decimal_str(h.uptime_secs).as_str());
            l.append("s)");
            push_line(out, l);
        },
        None => {},
    }
    match &live.mem {
        Some(m) => {
            push_line(
                out,
                cat5(
                    "memory:   ",
                    decimal_str((m.total_kib - m.available_kib) / 1024).as_str(),
                    " / ",
                    decimal_str(m.total_kib / 1024).as_str(),
                    " MiB used",
                ),
            );
        },
        None => {},
    }
    assert(crate::text::views(out@) =~= start + live_lines(*live));
}

fn push_disks(out: &mut Vec<String>, disks: &Vec<crate::spec::DiskSpec>)
    ensures
        crate::text::views(final(out)@) == crate::text::views(old(out)@) + extra_disks(
            crate::spec::disk_views(disks@),
        ),
{
    let ghost start = crate::text::views(out@);
    let ghost all = crate::spec::disk_views(disks@);
    let n: usize = disks.len();
    if n <= 2 {
        assert(start + extra_disks(all) =~= start);
        return;
    }
    let mut i: usize = 2;
    assert(start + extra_disks(all.take(2)) =~= start);
    while i < n
        invariant
            2 <= i <= n,
            n == disks@.len(),
            all == crate::spec::disk_views(disks@),
            crate::text::views(out@) == start + extra_disks(all.take(i as int)),
        decreases n - i,
    {
        let path: &str = disks[i].path.as_str();
        let line: String = cat3("          ", path, make_mount_note(path).as_str());
        push_line(out, line);
        proof {
            let longer = all.take(i as int + 1);
            assert(longer.drop_last() =~= all.take(i as int));
            assert(longer.last() == disks@[i as int]@);
            assert(start + extra_disks(longer) =~= (start + extra_disks(all.take(i as int))).push(
                line@,
            ));
        }
        i = i + 1;
    }
    assert(all.take(n as int) =~= all);
}

/// What is told of a vessel; none where the guest's figures contradict each
/// other.
pub fn info(dir: &str, name: &str, spec: &VmSpec, live: &Option<Live>) -> (r: Option<Vec<String>>)
    ensures
        ({
            let odd = live matches Some(l) && l.mem matches Some(m) && m.total_kib
                < m.available_kib;
            match r {
                Some(lines) => !odd && crate::text::views(lines@) == info_of(
                    dir@,
                    name@,
                    spec@,
                    *live,
                ),
                None => odd,
            }
        }),
{
    let ghost want = info_of(dir@, name@, spec@, *live);
    let odd: bool = match live {
        Some(l) => match &l.mem {
            Some(m) => m.total_kib < m.available_kib,
            None => false,
        },
        None => false,
    };
    if odd {
        return None;
    }
    let state: &str = match live {
        Some(_) => "running",
        None => "stopped",
    };
    let gpu: &str = if spec.gpu {
        "yes (virtio-gpu Venus)"
    } else {
        "no"
    };
    let backend: &str = match &spec.backend {
        Some(b) => b.as_str(),
        None => "krun",
    };
    let mut out: Vec<String> = Vec::new();
    push_line(&mut out, cat2("vessel:   ", name));
    push_line(&mut out, cat2("state:    ", state));
    match live {
        Some(l) => {
            push_live(&mut out, l);
        },
        None => {},
    }
    push_line(&mut out, cat2("cpus:     ", decimal_str(spec.cpus as u64).as_str()));
    push_line(&mut out, cat3("mem:      ", decimal_str(spec.mem_mib).as_str(), " MiB"));
    push_line(&mut out, cat2("backend:  ", backend));
    push_line(&mut out, cat2("gpu:      ", gpu));
    push_line(&mut out, cat2("disks:    ", join(dir, "rootfs.img").as_str()));
    push_line(&mut out, cat2("          ", join(dir, "data.img").as_str()));
    push_disks(&mut out, &spec.disks);
    push_line(&mut out, cat2("console:  ", join(dir, "console.log").as_str()));
    assert(crate::text::views(out@) =~= want);
    Some(out)
}

/// What running a command in a vessel comes to.
#[derive(Debug)]
pub enum ExecDecision {
    /// The error's text.
    Refuse(String),
    /// The engine runs it.
    Engine,
    /// The vessel's agent runs it.
    Vessel,
}

/// Decide who runs a command.
pub fn exec(name: &str, cmd: &Vec<String>, bad_name: &Option<String>, running: bool) -> (d: ExecDecision)
    ensures
        match d {
            ExecDecision::Refuse(m) => m@ == (if cmd@.len() == 0 {
                "usage: nebula vessels exec <name> -- <cmd> [args…]"@
            } else if *bad_name is Some {
                (*bad_name)->0@
            } else {
                "vessel `"@ + name@ + "` is not running"@
            }) && (cmd@.len() == 0 || !crate::vessels::engine_name(name@) && (*bad_name is Some
                || !running)),
            ExecDecision::Engine => cmd@.len() > 0 && crate::vessels::engine_name(name@),
            ExecDecision::Vessel => cmd@.len() > 0 && !crate::vessels::engine_name(name@)
                && *bad_name is None && running,
        },
{
    if cmd.len() == 0 {
        return ExecDecision::Refuse(owned("usage: nebula vessels exec <name> -- <cmd> [args…]"));
    }
    if is_engine(name) {
        return ExecDecision::Engine;
    }
    match bad_name {
        Some(m) => ExecDecision::Refuse(owned(m.as_str())),
        None => if running {
            ExecDecision::Vessel
        } else {
            ExecDecision::Refuse(cat3("vessel `", name, "` is not running"))
        },
    }
}

/// Putting the engine's root filesystem back: a running engine is stopped
/// before anything is touched and started when all is done; the live disk is
/// replaced by a clone of the pristine one; and the data disk goes just where
/// that is asked for.
pub proof fn how_the_engine_is_reset(home: Seq<char>, running: bool, wipe: bool)
    ensures
        ({
            let s = engine_reset(home, running, wipe);
            let live = joined_path(home, "disks/rootfs.img"@);
            let at = if running {
                2int
            } else {
                0
            };
            &&& running ==> s[1] == ResetView::StopEngine && s.last() == ResetView::StartEngine
            &&& !running ==> forall|i: int|
                0 <= i < s.len() ==> !(#[trigger] s[i] is StopEngine) && !(s[i] is StartEngine)
            &&& s[at] == ResetView::RemoveFile(live)
            &&& s[at + 1] == (ResetView::CloneFile {
                from: joined_path(home, "images/rootfs-pristine.img"@),
                to: live,
            })
            &&& wipe ==> s[at + 2] == ResetView::RemoveFile(joined_path(home, "disks/data.img"@))
            &&& forall|i: int|
                0 <= i < s.len() && i != at && !(wipe && i == at + 2) ==> !(
                #[trigger] s[i] is RemoveFile)
            &&& forall|i: int|
                0 <= i < s.len() && i != at + 1 ==> !(#[trigger] s[i] is CloneFile) && !(
                s[i] is EmptyFile)
        }),
{
}

/// Putting a vessel's root filesystem back: the same, and a data disk that goes
/// is replaced by an empty one.
pub proof fn how_a_vessel_is_reset(
    home: Seq<char>,
    dir: Seq<char>,
    name: Seq<char>,
    running: bool,
    wipe: bool,
)
    ensures
        ({
            let s = vessel_reset(home, dir, name, running, wipe);
            let live = joined_path(dir, "rootfs.img"@);
            let data = joined_path(dir, "data.img"@);
            let at = if running {
                1int
            } else {
                0
            };
            &&& running ==> s[0] == ResetView::StopVessel && s.last() == ResetView::StartVessel
            &&& !running ==> forall|i: int|
                0 <= i < s.len() ==> !(#[trigger] s[i] is StopVessel) && !(s[i] is StartVessel)
            &&& s[at] == ResetView::RemoveFile(live)
            &&& s[at + 1] == (ResetView::CloneFile {
                from: joined_path(home, "images/rootfs-pristine.img"@),
                to: live,
            })
            &&& wipe ==> s[at + 2] == ResetView::RemoveFile(data) && s[at + 3]
                == ResetView::EmptyFile(data)
            &&& forall|i: int|
                0 <= i < s.len() && i != at && !(wipe && i == at + 2) ==> !(
                #[trigger] s[i] is RemoveFile)
            &&& forall|i: int|
                0 <= i < s.len() && i != at + 1 ==> !(#[trigger] s[i] is CloneFile)
        }),
{
}

/// A column holds its text at one side, and blanks beside it up to its width.
pub proof fn a_column_is_filled(s: Seq<char>, width: nat)
    requires
        s.len() <= width,
    ensures
        left_aligned(s, width).len() == width,
        right_aligned(s, width).len() == width,
        left_aligned(s, width).take(s.len() as int) == s,
        right_aligned(s, width).skip(width - s.len()) == s,
        forall|i: int| s.len() <= i < width ==> #[trigger] left_aligned(s, width)[i] == ' ',
        forall|i: int| 0 <= i < width - s.len() ==> #[trigger] right_aligned(s, width)[i] == ' ',
{
    assert(left_aligned(s, width).take(s.len() as int) =~= s);
    assert(right_aligned(s, width).skip(width - s.len()) =~= s);
}

/// The disk of a volume is told with where it is mounted.
pub proof fn a_volume_is_told_with_its_place(dir: Seq<char>, name: Seq<char>)
    requires
        crate::paths::plain_file("vol-"@ + name + ".img"@),
    ensures
        mount_note(joined_path(dir, "vol-"@ + name + ".img"@)) == "  -> /mnt/"@ + name,
{
    reveal_strlit("vol-");
    reveal_strlit(".img");
    reveal_strlit("..");
    let f = "vol-"@ + name + ".img"@;
    crate::paths::joined_paths_take_apart(dir, f, f);
    let n = f.len() - 4;
    lemma_last_dot("vol-"@ + name, ".img"@);
    assert(f[0] == 'v');
    assert(stem_of(f) =~= "vol-"@ + name);
    crate::text::what_is_behind_a_prefix("vol-"@ + name, "vol-"@, name);
}

proof fn lemma_last_dot(stem: Seq<char>, ext: Seq<char>)
    requires
        ext.len() == 4,
        ext[0] == '.',
        ext[1] != '.' && ext[2] != '.' && ext[3] != '.',
    ensures
        crate::vessels::last_of(stem + ext, '.') == Some(stem.len() as int),
        (stem + ext).take(stem.len() as int) == stem,
{
    let f = stem + ext;
    let n = stem.len() as int;
    crate::vessels::lemma_last_of(f, '.');
    assert(f[n] == ext[0] && f[n + 1] == ext[1] && f[n + 2] == ext[2] && f[n + 3] == ext[3]);
    assert(f.take(n) =~= stem);
}

/// A vessel is made from one source, under a name that is free and allowed, with
/// volumes that can be read, in its own directory.
pub proof fn when_a_vessel_is_made(
    home: Seq<char>,
    opts: NewOpts,
    dir_exists: bool,
    rootfs_there: bool,
    r: Result<NewPlan, NewError>,
)
    requires
        new_checked(home, opts, dir_exists, rootfs_there, r),
    ensures
        r is Ok <==> !(opts.from_image is Some && opts.rootfs_img is Some)
            && crate::vessels::volumes_of(crate::text::views(opts.volumes@)) is Ok
            && crate::vessels::name_problem(opts.name@) is None && !dir_exists && (
        opts.rootfs_img is Some ==> rootfs_there),
        r matches Ok(p) ==> p.dir@ == crate::vessels::vessel_dir(home, opts.name@) && (
        p.rootfs is Image <==> opts.from_image is Some) && (p.rootfs is File
            <==> opts.rootfs_img is Some),
        crate::vessels::engine_name(opts.name@) ==> r is Err,
{
}

/// A vessel is put back where there is something to put it back to, and where
/// it is there itself; the engine always is.
pub proof fn when_a_vessel_is_put_back(
    home: Seq<char>,
    name: Seq<char>,
    wipe_data: bool,
    pristine_there: bool,
    dir_exists: bool,
    running: bool,
    r: Result<Vec<ResetStep>, ResetError>,
)
    requires
        reset_checked(home, name, wipe_data, pristine_there, dir_exists, running, r),
    ensures
        r is Ok <==> pristine_there && (crate::vessels::engine_name(name) || (
        crate::vessels::name_problem(name) is None && dir_exists)),
        r matches Ok(steps) ==> reset_views(steps@) == (if crate::vessels::engine_name(name) {
            engine_reset(home, running, wipe_data)
        } else {
            vessel_reset(
                home,
                crate::vessels::vessel_dir(home, name),
                name,
                running,
                wipe_data,
            )
        }),
        !pristine_there ==> r is Err && r->Err_0 is NoPristine,
{
}

} // verus!

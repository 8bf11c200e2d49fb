//! The record of an instance: what a daemon is, and how the last one ended.
//!
//! The running daemon publishes its identity and ports, and every exit path
//! stamps a reason into the record, so the next start can say whether the
//! previous one ended cleanly. A hard kill leaves no exit record: that there
//! is none is the finding.

use crate::paths::{join, joined_path, Paths};
use crate::ports::PortPlan;
use crate::shutdown::Reason;
use crate::text::{cat2, owned};
use vstd::prelude::*;

verus! {

/// The ports that an instance owns.
#[derive(Debug)]
pub struct Ports {
    pub api_host: String,
    pub api_port: u16,
    pub dns_port: u16,
    pub k8s_port: u16,
    pub dns_zone: String,
}

impl Ports {
    /// The ports of a plan.
    pub fn of(p: &PortPlan) -> (r: Ports)
        ensures
            r.api_host@ == p@.api_host,
            r.api_port == p@.api_port,
            r.dns_port == p@.dns_port,
            r.k8s_port == p@.k8s_port,
            r.dns_zone@ == p@.dns_zone,
    {
        Ports {
            api_host: owned(p.api_host.as_str()),
            api_port: p.api_port,
            dns_port: p.dns_port,
            k8s_port: p.k8s_port,
            dns_zone: owned(p.dns_zone.as_str()),
        }
    }
}

/// How a run ended.
#[derive(Debug)]
pub struct ExitRecord {
    /// Stable: `down`, `signal`, `vessel-died`, `startup-error`, `fatal`,
    /// `listener-closed`.
    pub reason: String,
    pub detail: Option<String>,
    pub at: u64,
    pub uptime_secs: u64,
    pub containers: Option<usize>,
    pub vessels_running: Option<usize>,
}

impl ExitRecord {
    /// The record of an exit.
    pub fn of(
        reason: &Reason,
        at: u64,
        uptime_secs: u64,
        containers: Option<usize>,
        vessels_running: Option<usize>,
    ) -> (e: ExitRecord)
        ensures
            e.reason@ == reason.label_text(),
            crate::text::opt_view(e.detail) == reason.detail_text(),
            e.at == at,
            e.uptime_secs == uptime_secs,
            e.containers == containers,
            e.vessels_running == vessels_running,
    {
        ExitRecord {
            reason: owned(reason.label()),
            detail: reason.detail(),
            at,
            uptime_secs,
            containers,
            vessels_running,
        }
    }
}

#[derive(Debug)]
pub struct InstanceRecord {
    pub pid: u32,
    pub version: String,
    pub home: String,
    /// Unix seconds.
    pub started_at: u64,
    pub ports: Ports,
    /// None while running.
    pub exit: Option<ExitRecord>,
}

/// Where the record is kept.
pub fn path(paths: &Paths) -> (p: String)
    ensures
        p@ == joined_path(joined_path(paths.root@, "run"@), "instance.json"@),
{
    join(paths.run_dir().as_str(), "instance.json")
}

/// The file that a record is written to before it takes the record's name.
pub fn temp_path(paths: &Paths) -> (p: String)
    ensures
        p@ == joined_path(joined_path(paths.root@, "run"@), "instance.json.tmp"@),
{
    join(paths.run_dir().as_str(), "instance.json.tmp")
}

/// The record of a run that is under way.
pub fn running(pid: u32, version: &str, paths: &Paths, plan: &PortPlan, now: u64) -> (r:
    InstanceRecord)
    ensures
        r.pid == pid,
        r.version@ == version@,
        r.home@ == paths.root@,
        r.started_at == now,
        r.ports.api_host@ == plan@.api_host,
        r.ports.api_port == plan@.api_port,
        r.ports.dns_port == plan@.dns_port,
        r.ports.k8s_port == plan@.k8s_port,
        r.ports.dns_zone@ == plan@.dns_zone,
        r.exit is None,
{
    InstanceRecord {
        pid,
        version: owned(version),
        home: owned(paths.root.as_str()),
        started_at: now,
        ports: Ports::of(plan),
        exit: None,
    }
}

/// Stamp an exit into the record; without one there is nothing to stamp.
pub fn record_exit(rec: Option<InstanceRecord>, exit: ExitRecord) -> (r: Option<InstanceRecord>)
    ensures
        match rec {
            None => r is None,
            Some(old_rec) => r is Some && r->0.exit == Some(exit) && r->0.pid == old_rec.pid
                && r->0.version == old_rec.version && r->0.home == old_rec.home
                && r->0.started_at == old_rec.started_at && r->0.ports == old_rec.ports,
        },
{
    match rec {
        None => None,
        Some(old_rec) => {
            let mut new_rec: InstanceRecord = old_rec;
            new_rec.exit = Some(exit);
            Some(new_rec)
        },
    }
}

/// How the previous run ended, with what is logged of it.
#[derive(Debug)]
pub enum PreviousRun {
    /// Nothing is known of one, and nothing is logged.
    Unknown,
    /// It exited cleanly. The detail is empty where the exit had none.
    Clean { pid: u32, version: String, reason: String, detail: String, uptime_secs: u64 },
    /// It was killed, crashed, or the host lost power, at most so many seconds
    /// after its start.
    Unclean { pid: u32, version: String, started_at: u64, ran_secs: u64 },
}

/// What is told of the previous run, from its record.
pub open spec fn run_told(rec: Option<InstanceRecord>, now: u64, r: PreviousRun) -> bool {
    match rec {
        None => r is Unknown,
        Some(p) => match p.exit {
            Some(e) => r matches PreviousRun::Clean {
                pid,
                version,
                reason,
                detail,
                uptime_secs,
            } && pid == p.pid && version@ == p.version@ && reason@ == e.reason@ && detail@
                == (match e.detail {
                Some(d) => d@,
                None => ""@,
            }) && uptime_secs == e.uptime_secs,
            None => r matches PreviousRun::Unclean { pid, version, started_at, ran_secs }
                && pid == p.pid && version@ == p.version@ && started_at == p.started_at
                && ran_secs == (if now > p.started_at {
                now - p.started_at
            } else {
                0
            }),
        },
    }
}

/// How the previous run ended, before this one takes the record over.
pub fn report_previous_run(rec: &Option<InstanceRecord>, now: u64) -> (r: PreviousRun)
    ensures
        run_told(*rec, now, r),
{
    match rec {
        None => PreviousRun::Unknown,
        Some(p) => match &p.exit {
            Some(e) => PreviousRun::Clean {
                pid: p.pid,
                version: owned(p.version.as_str()),
                reason: owned(e.reason.as_str()),
                detail: match &e.detail {
                    Some(d) => owned(d.as_str()),
                    None => owned(""),
                },
                uptime_secs: e.uptime_secs,
            },
            None => PreviousRun::Unclean {
                pid: p.pid,
                version: owned(p.version.as_str()),
                started_at: p.started_at,
                ran_secs: if now > p.started_at {
                    now - p.started_at
                } else {
                    0
                },
            },
        },
    }
}

/// A run that left its exit ended cleanly, and one that did not did not.
pub proof fn how_a_run_ended(rec: Option<InstanceRecord>, now: u64, r: PreviousRun)
    requires
        run_told(rec, now, r),
    ensures
        r is Unknown <==> rec is None,
        r is Clean <==> rec is Some && rec->0.exit is Some,
        r is Unclean <==> rec is Some && rec->0.exit is None,
        r matches PreviousRun::Clean { pid, reason, uptime_secs, .. } ==> pid == rec->0.pid && reason@
            == rec->0.exit->0.reason@ && uptime_secs == rec->0.exit->0.uptime_secs,
        r matches PreviousRun::Unclean { pid, started_at, ran_secs, .. } ==> pid == rec->0.pid
            && started_at == rec->0.started_at && (started_at <= now ==> started_at + ran_secs
            == now),
{
}

} // verus!

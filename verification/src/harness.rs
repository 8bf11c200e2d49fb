//! Driving an engine for a test run: what is asked of the command line, and
//! what its answers mean. Also the trace that is kept of a run.

use crate::doc::{Doc, DocView};
use crate::memory::Stats;
use crate::paths::{join, joined_path};
use crate::scale::{is_healthy, printed_count, removal_batches};
use crate::text::{cat3, cat4, cat5, decimal_str, owned, push_line};
use crate::util::{listed_with_prefix, table_names, CmdOut};
use vstd::prelude::*;
use vstd::string::StringExecFns;

verus! {

/// An engine's command line, and where its API listens.
#[derive(Debug)]
pub struct Nebula {
    pub bin: String,
    pub api_port: u16,
}

/// A command's arguments behind a first word.
pub open spec fn behind(first: Seq<char>, args: Seq<Seq<char>>) -> Seq<Seq<char>> {
    seq![first] + args
}

fn prefixed(first: &str, args: &Vec<String>) -> (r: Vec<String>)
    ensures
        crate::text::views(r@) == behind(first@, crate::text::views(args@)),
{
    let ghost all = crate::text::views(args@);
    let mut out: Vec<String> = Vec::new();
    push_line(&mut out, owned(first));
    let mut i: usize = 0;
    assert(crate::text::views(out@) =~= seq![first@] + all.take(0));
    while i < args.len()
        invariant
            i <= args@.len(),
            all == crate::text::views(args@),
            crate::text::views(out@) == seq![first@] + all.take(i as int),
        decreases args@.len() - i,
    {
        push_line(&mut out, owned(args[i].as_str()));
        assert(seq![first@] + all.take(i as int + 1) =~= (seq![first@] + all.take(i as int)).push(
            args@[i as int]@,
        ));
        i = i + 1;
    }
    assert(all.take(args@.len() as int) =~= all);
    out
}

impl Nebula {
    /// Find the command: the one that was named, the one beside this program,
    /// or the one on the search path. The error's text for one that is not
    /// there.
    pub fn locate(flag: &Option<String>, there: bool, sibling: &Option<String>, api_port: u16) -> (r:
        Result<Nebula, String>)
        ensures
            match r {
                Ok(n) => n.api_port == api_port && (match *flag {
                    Some(p) => there && n.bin@ == p@,
                    None => n.bin@ == (match *sibling {
                        Some(s) => s@,
                        None => "nebula"@,
                    }),
                }),
                Err(e) => *flag is Some && !there && e@ == "--nebula "@ + (*flag)->0@
                    + " does not exist"@,
            },
    {
        let bin: String = match flag {
            Some(p) => {
                if !there {
                    return Err(cat3("--nebula ", p.as_str(), " does not exist"));
                }
                owned(p.as_str())
            },
            None => match sibling {
                Some(s) => owned(s.as_str()),
                None => owned("nebula"),
            },
        };
        Ok(Nebula { bin, api_port })
    }

    /// How a command is run in the guest.
    pub fn exec_args(cmd: &str) -> (r: Vec<String>)
        ensures
            crate::text::views(r@) == seq!["exec"@, "sh"@, "-c"@, cmd@],
    {
        let mut out: Vec<String> = Vec::new();
        push_line(&mut out, owned("exec"));
        push_line(&mut out, owned("sh"));
        push_line(&mut out, owned("-c"));
        push_line(&mut out, owned(cmd));
        assert(crate::text::views(out@) =~= seq!["exec"@, "sh"@, "-c"@, cmd@]);
        out
    }

    /// How a docker command is run against the engine.
    pub fn docker(args: &Vec<String>) -> (r: Vec<String>)
        ensures
            crate::text::views(r@) == behind("docker"@, crate::text::views(args@)),
    {
        prefixed("docker", args)
    }

    /// How a command about vessels is run.
    pub fn vessels(args: &Vec<String>) -> (r: Vec<String>)
        ensures
            crate::text::views(r@) == behind("vessels"@, crate::text::views(args@)),
    {
        prefixed("vessels", args)
    }

    /// Whether a command in the guest succeeded.
    pub fn exec_ok(out: &Option<CmdOut>) -> (r: bool)
        ensures
            r == match *out {
                Some(o) => !o.timed_out && o.code == Some(0i32),
                None => false,
            },
    {
        match out {
            Some(o) => o.ok(),
            None => false,
        }
    }

    /// What a command in the guest wrote; the error's text where its time was
    /// up.
    pub fn exec_out(cmd: &str, out: &CmdOut) -> (r: Result<String, String>)
        ensures
            match r {
                Ok(s) => !out.timed_out && s@ == out.stdout@,
                Err(e) => out.timed_out && e@ == "exec timed out: "@ + cmd@,
            },
    {
        if out.timed_out {
            Err(crate::text::cat2("exec timed out: ", cmd))
        } else {
            Ok(owned(out.stdout.as_str()))
        }
    }

    /// An engine is healthy where its API tells of a running VM with an agent,
    /// and a command in the guest succeeds.
    pub fn healthy(status: &Option<Doc>, exec_ok: bool) -> (r: bool)
        ensures
            r == (exec_ok && match *status {
                Some(d) => crate::scale::status_healthy(d@),
                None => false,
            }),
    {
        match status {
            Some(d) => is_healthy(d) && exec_ok,
            None => false,
        }
    }

    /// How often the guest ran out of memory, as far as it tells.
    pub fn oom_count(out: &Option<CmdOut>) -> (n: u64)
        ensures
            n == (match *out {
                Some(o) => if o.timed_out {
                    0nat
                } else {
                    match crate::text::parse_dec(
                        crate::text::trimmed(o.stdout@),
                        u64::MAX as nat,
                    ) {
                        Some(k) => k,
                        None => 0nat,
                    }
                },
                None => 0nat,
            }),
    {
        match out {
            Some(o) => if o.timed_out {
                0
            } else {
                printed_count(o.stdout.as_str())
            },
            None => 0,
        }
    }

    /// How the names of our containers are listed, the stopped ones too where
    /// that is wanted.
    pub fn list_args(prefix: &str, stopped: bool) -> (r: Vec<String>)
        ensures
            crate::text::views(r@) == seq!["ps"@] + (if stopped {
                seq!["-a"@]
            } else {
                Seq::empty()
            }) + seq!["--filter"@, "name="@ + prefix@, "--format"@, "{{.Names}}"@],
    {
        let mut out: Vec<String> = Vec::new();
        push_line(&mut out, owned("ps"));
        if stopped {
            push_line(&mut out, owned("-a"));
        }
        push_line(&mut out, owned("--filter"));
        push_line(&mut out, crate::text::cat2("name=", prefix));
        push_line(&mut out, owned("--format"));
        push_line(&mut out, owned("{{.Names}}"));
        assert(crate::text::views(out@) =~= seq!["ps"@] + (if stopped {
            seq!["-a"@]
        } else {
            Seq::empty()
        }) + seq!["--filter"@, "name="@ + prefix@, "--format"@, "{{.Names}}"@]);
        out
    }

    /// The names of our containers; the error's text where they could not be
    /// listed. The filter of `docker ps` matches anywhere in a name, and what
    /// only holds the prefix further on is not ours.
    pub fn bt_containers(out: &CmdOut, prefix: &str) -> (r: Result<Vec<String>, String>)
        ensures
            match r {
                Ok(names) => !out.timed_out && out.code == Some(0i32) && crate::text::views(names@)
                    == crate::util::prefixed(
                    crate::util::listed(crate::text::lines_of(out.stdout@)),
                    prefix@,
                ),
                Err(e) => !(!out.timed_out && out.code == Some(0i32)) && e@
                    == "docker ps failed: "@ + out.brief_text(),
            },
    {
        if !out.ok() {
            return Err(crate::text::cat2("docker ps failed: ", out.brief_err().as_str()));
        }
        Ok(listed_with_prefix(out.stdout.as_str(), prefix))
    }

    /// How all of our containers are removed, in chunks: those whose names start
    /// with the prefix, and no others.
    pub fn cleanup_containers(out: &Option<CmdOut>, prefix: &str) -> (r: Vec<Vec<String>>)
        ensures
            crate::scale::arg_lists(r@) == (match *out {
                Some(o) => crate::scale::removals(
                    crate::util::prefixed(
                        crate::util::listed(crate::text::lines_of(o.stdout@)),
                        prefix@,
                    ),
                    0,
                ),
                None => Seq::empty(),
            }),
    {
        match out {
            Some(o) => removal_batches(&listed_with_prefix(o.stdout.as_str(), prefix)),
            None => {
                let r: Vec<Vec<String>> = Vec::new();
                assert(crate::scale::arg_lists(r@) =~= Seq::empty());
                r
            },
        }
    }

    /// The names of our vessels, from the list of all.
    pub fn bt_vessels(out: &Option<CmdOut>) -> (r: Vec<String>)
        ensures
            crate::text::views(r@) == (match *out {
                Some(o) => crate::util::first_words(crate::text::lines_of(o.stdout@), "bt-v"@),
                None => Seq::empty(),
            }),
    {
        match out {
            Some(o) => table_names(o.stdout.as_str(), "bt-v"),
            None => {
                let r: Vec<String> = Vec::new();
                assert(crate::text::views(r@) =~= Seq::empty());
                r
            },
        }
    }

    /// How one of our vessels is removed.
    pub fn cleanup_vessels(name: &str) -> (r: Vec<String>)
        ensures
            crate::text::views(r@) == seq!["rm"@, "--force"@, name@],
    {
        let mut out: Vec<String> = Vec::new();
        push_line(&mut out, owned("rm"));
        push_line(&mut out, owned("--force"));
        push_line(&mut out, owned(name));
        assert(crate::text::views(out@) =~= seq!["rm"@, "--force"@, name@]);
        out
    }

    /// Why an image could not be pulled ahead; none where it was.
    pub fn pre_pull(image: &str, out: &CmdOut) -> (r: Option<String>)
        ensures
            match r {
                Some(e) => !(!out.timed_out && out.code == Some(0i32)) && e@ == "pre-pull "@
                    + image@ + " failed: "@ + out.brief_text(),
                None => !out.timed_out && out.code == Some(0i32),
            },
    {
        if out.ok() {
            None
        } else {
            Some(cat4("pre-pull ", image, " failed: ", out.brief_err().as_str()))
        }
    }

    /// Where a fresh start has got to: up within a minute of the command's
    /// return, or an error's text.
    pub fn fresh_up(up: &CmdOut, healthy: bool, waited_s: u64) -> (r: FreshUp)
        ensures
            ({
                let ok = !up.timed_out && up.code == Some(0i32);
                match r {
                    FreshUp::Ready => ok && healthy && waited_s < 60,
                    FreshUp::Wait => ok && !healthy && waited_s < 60,
                    FreshUp::Failed(e) => (!ok || waited_s >= 60) && e@ == (if !ok {
                        "nebula up failed: "@ + up.brief_text()
                    } else {
                        "engine not healthy 60s after `nebula up` returned"@
                    }),
                }
            }),
    {
        if !up.ok() {
            FreshUp::Failed(crate::text::cat2("nebula up failed: ", up.brief_err().as_str()))
        } else if waited_s >= 60 {
            FreshUp::Failed(owned("engine not healthy 60s after `nebula up` returned"))
        } else if healthy {
            FreshUp::Ready
        } else {
            FreshUp::Wait
        }
    }
}

/// How far a fresh start is.
#[derive(Debug)]
pub enum FreshUp {
    Ready,
    Wait,
    Failed(String),
}

/// Where a run's results go.
pub fn run_dir(out_root: &str, stamp: &str, host: &Option<String>, scenario: &str) -> (p: String)
    ensures
        p@ == joined_path(
            out_root@,
            stamp@ + "-"@ + (match *host {
                Some(h) => h@,
                None => "unknown"@,
            }) + "-"@ + scenario@,
        ),
{
    let h: &str = match host {
        Some(h) => h.as_str(),
        None => "unknown",
    };
    join(out_root, cat5(stamp, "-", h, "-", scenario).as_str())
}

/// Where a host's earlier figures are; none where the host has no name.
pub fn baseline_path(flag: &Option<String>, host: &Option<String>, parent: &Option<String>) -> (r:
    Option<String>)
    ensures
        crate::text::opt_view(r) == (match *flag {
            Some(p) => Some(p@),
            None => match *host {
                Some(h) => Some(
                    joined_path(
                        joined_path(
                            match *parent {
                                Some(p) => p@,
                                None => "."@,
                            },
                            "baselines"@,
                        ),
                        h@ + ".json"@,
                    ),
                ),
                None => None,
            },
        }),
{
    match flag {
        Some(p) => Some(owned(p.as_str())),
        None => match host {
            Some(h) => {
                let dir: &str = match parent {
                    Some(p) => p.as_str(),
                    None => ".",
                };
                Some(
                    join(
                        join(dir, "baselines").as_str(),
                        crate::text::cat2(h.as_str(), ".json").as_str(),
                    ),
                )
            },
            None => None,
        },
    }
}

/// What is known of the host of a run.
#[derive(Debug)]
pub struct HostFacts {
    pub hostname: Option<String>,
    pub chip: Option<String>,
    pub os: Option<String>,
    pub arch: String,
    pub total_mib: Option<u64>,
    pub git_sha: Option<String>,
}

pub open spec fn text_doc(o: Option<Seq<char>>) -> DocView {
    match o {
        Some(s) => DocView::Str(s),
        None => DocView::Null,
    }
}

fn make_text(o: &Option<String>) -> (d: Doc)
    ensures
        d@ == text_doc(crate::text::opt_view(*o)),
{
    match o {
        Some(s) => Doc::Str(owned(s.as_str())),
        None => Doc::Null,
    }
}

/// The note on the host that every run carries, so that results can be
/// compared.
pub open spec fn host_meta_of(f: HostFacts) -> DocView {
    DocView::Table(
        seq![
            (DocView::Str("hostname"@), text_doc(crate::text::opt_view(f.hostname))),
            (DocView::Str("chip"@), text_doc(crate::text::opt_view(f.chip))),
            (DocView::Str("os"@), text_doc(crate::text::opt_view(f.os))),
            (DocView::Str("arch"@), DocView::Str(f.arch@)),
            (
                DocView::Str("host_total_mib"@),
                match f.total_mib {
                    Some(n) => DocView::Num(crate::text::decimal(n as nat)),
                    None => DocView::Null,
                },
            ),
            (DocView::Str("nebula_git_sha"@), text_doc(crate::text::opt_view(f.git_sha))),
        ],
    )
}

pub fn host_meta(f: &HostFacts) -> (d: Doc)
    ensures
        d@ == host_meta_of(*f),
{
    let total: Doc = match f.total_mib {
        Some(n) => Doc::Num(decimal_str(n)),
        None => Doc::Null,
    };
    let m: Vec<(Doc, Doc)> = vec![
        (Doc::Str(owned("hostname")), make_text(&f.hostname)),
        (Doc::Str(owned("chip")), make_text(&f.chip)),
        (Doc::Str(owned("os")), make_text(&f.os)),
        (Doc::Str(owned("arch")), Doc::Str(owned(f.arch.as_str()))),
        (Doc::Str(owned("host_total_mib")), total),
        (Doc::Str(owned("nebula_git_sha")), make_text(&f.git_sha)),
    ];
    let d: Doc = Doc::Table(m);
    proof {
        reveal_with_fuel(Doc::tree, 3);
        assert(d@->Table_0 =~= host_meta_of(*f)->Table_0);
    }
    d
}

// The trace

/// The heading of a trace.
pub const CSV_HEADER: &'static str = "ts_unix,elapsed_s,phase,guest_total_mib,guest_used_mib,guest_avail_mib,balloon_target_mib,balloon_held_mib,max_mib,host_fp_mib,psi_some,psi_full,host_free_mib";

pub open spec fn or_zero(o: Option<u64>) -> nat {
    match o {
        Some(n) => n as nat,
        None => 0,
    }
}

/// A row of a trace.
pub open spec fn csv_row_of(
    ts: u64,
    elapsed: Seq<char>,
    phase: Seq<char>,
    s: Stats,
    psi: (Seq<char>, Seq<char>),
    host_free: Option<u64>,
) -> Seq<char> {
    let c = ","@;
    let n = |k: int| crate::text::decimal(k as nat);
    n(ts as int) + c + elapsed + c + phase + c + n(
        match s.guest {
            Some(g) => g.total_kib as int / 1024,
            None => 0,
        },
    ) + c + n(
        match s.guest {
            Some(g) => crate::memory::less(g.total_kib as int, g.available_kib as int) / 1024,
            None => 0,
        },
    ) + c + n(
        match s.guest {
            Some(g) => g.available_kib as int / 1024,
            None => 0,
        },
    ) + c + n(s.balloon_target_mib as int) + c + n(
        crate::memory::less(s.max_mib as int, s.balloon_target_mib as int),
    ) + c + n(s.max_mib as int) + c + n(s.host_footprint_mib as int) + c + psi.0 + c + psi.1
        + c + crate::text::decimal(or_zero(host_free))
}

/// Write a row of a trace; `elapsed` is the time since its start, `some` and
/// `full` are the pressures, with their decimals.
pub fn csv_row(
    ts: u64,
    elapsed: &str,
    phase: &str,
    s: &Stats,
    some: &str,
    full: &str,
    host_free: Option<u64>,
) -> (r: String)
    ensures
        r@ == csv_row_of(ts, elapsed@, phase@, *s, (some@, full@), host_free),
{
    let total: u64 = match s.guest {
        Some(g) => g.total_kib / 1024,
        None => 0,
    };
    let free: u64 = match host_free {
        Some(f) => f,
        None => 0,
    };
    let mut r: String = cat5(decimal_str(ts).as_str(), ",", elapsed, ",", phase);
    r.append(",");
    r.append(decimal_str(total).as_str());
    r.append(",");
    r.append(decimal_str(s.guest_used_mib()).as_str());
    r.append(",");
    r.append(decimal_str(s.guest_avail_mib()).as_str());
    r.append(",");
    r.append(decimal_str(s.balloon_target_mib).as_str());
    r.append(",");
    r.append(decimal_str(s.held_mib()).as_str());
    r.append(",");
    r.append(decimal_str(s.max_mib).as_str());
    r.append(",");
    r.append(decimal_str(s.host_footprint_mib).as_str());
    r.append(",");
    r.append(some);
    r.append(",");
    r.append(full);
    r.append(",");
    r.append(decimal_str(free).as_str());
    r
}

/// What a trace comes to.
#[derive(Debug, Clone, Copy, PartialEq, Eq, Structural)]
pub struct Summary {
    pub samples: u64,
    pub peak_host_fp_mib: u64,
    pub min_balloon_held_mib: u64,
}

/// The extremes of some samples.
pub open spec fn summed(samples: Seq<Stats>) -> (nat, nat, nat)
    decreases samples.len(),
{
    if samples.len() == 0 {
        (0, 0, u64::MAX as nat)
    } else {
        let (n, peak, low) = summed(samples.drop_last());
        let s = samples.last();
        let held = crate::memory::less(s.max_mib as int, s.balloon_target_mib as int) as nat;
        (
            n + 1,
            if s.host_footprint_mib > peak {
                s.host_footprint_mib as nat
            } else {
                peak
            },
            if held < low {
                held
            } else {
                low
            },
        )
    }
}

impl Summary {
    /// Nothing was seen yet.
    pub fn start() -> (s: Summary)
        ensures
            s == (Summary { samples: 0, peak_host_fp_mib: 0, min_balloon_held_mib: u64::MAX }),
    {
        Summary { samples: 0, peak_host_fp_mib: 0, min_balloon_held_mib: 0xffff_ffff_ffff_ffff }
    }

    /// Whether it is the summary of these samples.
    pub open spec fn of(self, samples: Seq<Stats>) -> bool {
        (self.samples as nat, self.peak_host_fp_mib as nat, self.min_balloon_held_mib as nat)
            == summed(samples)
    }

    /// Take a sample.
    pub fn seen(&mut self, s: &Stats)
        requires
            old(self).samples < u64::MAX,
        ensures
            final(self).samples == old(self).samples + 1,
            final(self).peak_host_fp_mib == (if s.host_footprint_mib
                > old(self).peak_host_fp_mib {
                s.host_footprint_mib
            } else {
                old(self).peak_host_fp_mib
            }),
            final(self).min_balloon_held_mib == (if crate::memory::less(
                s.max_mib as int,
                s.balloon_target_mib as int,
            ) < old(self).min_balloon_held_mib {
                crate::memory::less(s.max_mib as int, s.balloon_target_mib as int)
            } else {
                old(self).min_balloon_held_mib as int
            }),
            forall|before: Seq<Stats>| old(self).of(before) ==> #[trigger] final(self).of(
                before.push(*s),
            ),
    {
        let ghost was = *self;
        let held: u64 = s.held_mib();
        self.samples = self.samples + 1;
        if s.host_footprint_mib > self.peak_host_fp_mib {
            self.peak_host_fp_mib = s.host_footprint_mib;
        }
        if held < self.min_balloon_held_mib {
            self.min_balloon_held_mib = held;
        }
        proof {
            assert forall|before: Seq<Stats>| was.of(before) implies #[trigger] self.of(
                before.push(*s),
            ) by {
                assert(before.push(*s).drop_last() =~= before);
            }
        }
    }

    /// The summary of a trace that has ended. Without samples the balloon held
    /// nothing.
    pub fn stop(self) -> (s: Summary)
        ensures
            s == (if self.min_balloon_held_mib == u64::MAX {
                Summary { min_balloon_held_mib: 0, ..self }
            } else {
                self
            }),
    {
        let mut s: Summary = self;
        if s.min_balloon_held_mib == 0xffff_ffff_ffff_ffff {
            s.min_balloon_held_mib = 0;
        }
        s
    }
}

/// A summary is of all the samples: it counts them, no sample is above the
/// peak or below the low, and the peak and the low were seen.
pub proof fn a_summary_is_of_all_samples(samples: Seq<Stats>, i: int)
    requires
        0 <= i < samples.len(),
    ensures
        ({
            let (n, peak, low) = summed(samples);
            let held = |s: Stats|
                if s.max_mib > s.balloon_target_mib {
                    s.max_mib - s.balloon_target_mib
                } else {
                    0
                };
            &&& n == samples.len()
            &&& samples[i].host_footprint_mib <= peak
            &&& low <= held(samples[i])
            &&& exists|k: int| 0 <= k < samples.len() && (#[trigger] samples[k]).host_footprint_mib == peak
            &&& exists|k: int| 0 <= k < samples.len() && held(#[trigger] samples[k]) == low || low == u64::MAX
        }),
    decreases samples.len(),
{
    let init = samples.drop_last();
    let held = |s: Stats|
        if s.max_mib > s.balloon_target_mib {
            s.max_mib - s.balloon_target_mib
        } else {
            0
        };
    let (n, peak, low) = summed(samples);
    assert(samples[samples.len() - 1] == samples.last());
    if init.len() == 0 {
        assert(summed(init) == (0nat, 0nat, u64::MAX as nat));
        assert(samples[0].host_footprint_mib == peak);
        assert(held(samples[0]) == low || low == u64::MAX);
    } else {
        a_summary_is_of_all_samples(
            init,
            if i < init.len() {
                i
            } else {
                0
            },
        );
        let (m, p, l) = summed(init);
        let kp = choose|k: int|
            0 <= k < init.len() && (#[trigger] init[k]).host_footprint_mib == p;
        assert(samples[kp] == init[kp]);
        if low == l && l != u64::MAX {
            let kl = choose|k: int| 0 <= k < init.len() && held(#[trigger] init[k]) == l;
            assert(samples[kl] == init[kl]);
            assert(held(samples[kl]) == low);
        } else if low != l {
            assert(held(samples[samples.len() - 1]) == low);
        }
        if i < init.len() {
            assert(samples[i] == init[i]);
        }
    }
}

/// The note on the host is read back, fact by fact; what is not known is null.
pub proof fn what_is_noted_of_the_host(f: HostFacts)
    ensures
        ({
            let d = host_meta_of(f);
            &&& crate::doc::text_of(crate::doc::field(d, "hostname"@)) == crate::text::opt_view(
                f.hostname,
            )
            &&& crate::doc::text_of(crate::doc::field(d, "chip"@)) == crate::text::opt_view(f.chip)
            &&& crate::doc::text_of(crate::doc::field(d, "os"@)) == crate::text::opt_view(f.os)
            &&& crate::doc::text_of(crate::doc::field(d, "arch"@)) == Some(f.arch@)
            &&& crate::doc::number_of(crate::doc::field(d, "host_total_mib"@)) == (
            match f.total_mib {
                Some(n) => Some(n as nat),
                None => None,
            })
            &&& crate::doc::text_of(crate::doc::field(d, "nebula_git_sha"@))
                == crate::text::opt_view(f.git_sha)
        }),
{
    reveal_strlit("hostname");
    reveal_strlit("chip");
    reveal_strlit("os");
    reveal_strlit("arch");
    reveal_strlit("host_total_mib");
    reveal_strlit("nebula_git_sha");
    let d = host_meta_of(f);
    let m = d->Table_0;
    assert("hostname"@.len() == 8 && "chip"@.len() == 4 && "os"@.len() == 2 && "arch"@.len() == 4
        && "host_total_mib"@.len() == 14 && "nebula_git_sha"@.len() == 14);
    assert("chip"@[0] == 'c' && "arch"@[0] == 'a' && "host_total_mib"@[0] == 'h'
        && "nebula_git_sha"@[0] == 'n');
    reveal_with_fuel(crate::doc::position, 7);
    assert(m.len() == 6);
    assert(m.drop_last().drop_last().drop_last().drop_last().drop_last().drop_last().len() == 0);
    if f.total_mib is Some {
        crate::text::decimal_reads_back(f.total_mib->0 as nat);
    }
}

proof fn lemma_no_comma(n: nat)
    ensures
        !crate::text::decimal(n).contains(','),
{
    crate::text::decimal_reads_back(n);
}

/// A row is taken apart at its commas: under each heading stands its figure.
pub proof fn a_row_has_its_columns(
    ts: u64,
    elapsed: Seq<char>,
    phase: Seq<char>,
    s: Stats,
    psi: (Seq<char>, Seq<char>),
    host_free: Option<u64>,
)
    requires
        !elapsed.contains(','),
        !phase.contains(','),
        !psi.0.contains(','),
        !psi.1.contains(','),
    ensures
        ({
            let columns = crate::text::split_on(
                csv_row_of(ts, elapsed, phase, s, psi, host_free),
                ',',
            );
            let says = |k: int, n: int| columns[k] == crate::text::decimal(n as nat);
            &&& columns.len() == 13
            &&& says(0, ts as int)
            &&& columns[1] == elapsed
            &&& columns[2] == phase
            &&& s.guest matches Some(g) ==> says(3, g.total_kib as int / 1024) && says(
                5,
                g.available_kib as int / 1024,
            ) && (g.available_kib <= g.total_kib ==> says(
                4,
                (g.total_kib - g.available_kib) / 1024,
            ))
            &&& s.guest is None ==> says(3, 0) && says(4, 0) && says(5, 0)
            &&& says(6, s.balloon_target_mib as int)
            &&& s.balloon_target_mib <= s.max_mib ==> says(7, s.max_mib - s.balloon_target_mib)
            &&& says(8, s.max_mib as int)
            &&& says(9, s.host_footprint_mib as int)
            &&& columns[10] == psi.0
            &&& columns[11] == psi.1
            &&& host_free matches Some(n) ==> says(12, n as int)
            &&& host_free is None ==> says(12, 0)
        }),
{
    let c = ","@;
    let n = |k: int| crate::text::decimal(k as nat);
    let total = match s.guest {
        Some(g) => g.total_kib as int / 1024,
        None => 0,
    };
    let used = match s.guest {
        Some(g) => crate::memory::less(g.total_kib as int, g.available_kib as int) / 1024,
        None => 0,
    };
    let avail = match s.guest {
        Some(g) => g.available_kib as int / 1024,
        None => 0,
    };
    let held = crate::memory::less(s.max_mib as int, s.balloon_target_mib as int);
    let f = seq![
        n(ts as int),
        elapsed,
        phase,
        n(total),
        n(used),
        n(avail),
        n(s.balloon_target_mib as int),
        n(held),
        n(s.max_mib as int),
        n(s.host_footprint_mib as int),
        psi.0,
        psi.1,
        crate::text::decimal(or_zero(host_free)),
    ];
    lemma_no_comma(ts as nat);
    lemma_no_comma(total as nat);
    lemma_no_comma(used as nat);
    lemma_no_comma(avail as nat);
    lemma_no_comma(s.balloon_target_mib as nat);
    lemma_no_comma(held as nat);
    lemma_no_comma(s.max_mib as nat);
    lemma_no_comma(s.host_footprint_mib as nat);
    lemma_no_comma(or_zero(host_free));
    assert forall|k: int| 0 <= k < 13 implies !(#[trigger] f[k]).contains(',') by {}
    lemma_columns(f);
    let row = csv_row_of(ts, elapsed, phase, s, psi, host_free);
    assert(row =~= f[0] + c + f[1] + c + f[2] + c + f[3] + c + f[4] + c + f[5] + c + f[6] + c + f[7]
        + c + f[8] + c + f[9] + c + f[10] + c + f[11] + c + f[12]);
}

proof fn lemma_columns(f: Seq<Seq<char>>)
    requires
        f.len() == 13,
        forall|k: int| 0 <= k < 13 ==> !(#[trigger] f[k]).contains(','),
    ensures
        ({
            let c = ","@;
            crate::text::split_on(
                f[0] + c + f[1] + c + f[2] + c + f[3] + c + f[4] + c + f[5] + c + f[6] + c + f[7]
                    + c + f[8] + c + f[9] + c + f[10] + c + f[11] + c + f[12],
                ',',
            ) == f
        }),
{
    let c = ","@;
    reveal_strlit(",");
    assert(c =~= seq![',']);
    crate::text::join_then_split(f, ',');
    let r = f[0] + c + f[1] + c + f[2] + c + f[3] + c + f[4] + c + f[5] + c + f[6] + c + f[7] + c
        + f[8] + c + f[9] + c + f[10] + c + f[11] + c + f[12];
    reveal_with_fuel(crate::text::joined, 14);
    assert(f.drop_last().drop_last().drop_last().drop_last().drop_last().drop_last().drop_last().drop_last().drop_last().drop_last().drop_last().drop_last().len()
        == 1);
    assert(r == crate::text::joined(f, c));
}

} // verus!

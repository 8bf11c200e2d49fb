//! What the command line says and decides: bringing the engine up and down,
//! its status, the guide, the self-check, and installing the guest images.

use crate::gzip::{gunzip, is_gzip};
use crate::paths::{join, joined_path};
use crate::ports::PortBinding;
use crate::proto::{AgentResponse, DaemonResponse, DaemonStatus, StatsView};
use crate::sparse::{
    new_file, op_views, piece_views, total_len, untouched, write_sparse_many, FileOp, OpView,
};
use crate::text::{
    cat2, cat3, cat4, cat5, decimal_str, join as join_text, owned, push_line, same, to_lowercase,
    trim, trim_end,
};
use vstd::prelude::*;

verus! {

// Up and down

/// What one look at a starting daemon shows.
#[derive(Debug)]
pub struct UpSeen {
    /// It answers, and its guest's agent is up.
    pub healthy: bool,
    /// How it exited, in words, where it did.
    pub exited: Option<String>,
    /// Why it did not start, as far as it left word.
    pub reason: String,
    /// Whether the minute is over.
    pub overdue: bool,
}

/// What follows from it.
#[derive(Debug)]
pub enum UpStep {
    Ready,
    Wait,
    Failed(String),
}

/// What a look at a starting daemon comes to.
pub open spec fn up_looked(seen: UpSeen, home: Seq<char>, r: UpStep) -> bool {
    match r {
        UpStep::Ready => seen.healthy,
        UpStep::Wait => !seen.healthy && seen.exited is None && !seen.overdue,
        UpStep::Failed(m) => !seen.healthy && (seen.exited is Some || seen.overdue) && m@ == (
        match seen.exited {
            Some(exit) => if crate::text::trimmed(seen.reason@).len() > 0 {
                "nebulad failed to start:\n\n"@ + crate::text::trimmed_end(seen.reason@)
            } else {
                "nebulad exited before it was ready ("@ + exit@ + ") — check "@ + joined_path(
                    home,
                    "logs/nebulad.log"@,
                )
            },
            None => "nebulad did not become ready within 60s — check "@ + home
                + "/logs/nebulad.log"@,
        }),
    }
}

/// One step of the wait for a daemon that was just started.
pub fn up_step(seen: &UpSeen, home: &str) -> (r: UpStep)
    ensures
        up_looked(*seen, home@, r),
{
    if seen.healthy {
        return UpStep::Ready;
    }
    match &seen.exited {
        Some(exit) => {
            let said: String = trim(seen.reason.as_str());
            if !same(said.as_str(), "") {
                proof {
                    reveal_strlit("");
                    assert(said@.len() == 0 ==> said@ =~= ""@);
                }
                UpStep::Failed(
                    cat2("nebulad failed to start:\n\n", trim_end(seen.reason.as_str()).as_str()),
                )
            } else {
                proof {
                    reveal_strlit("");
                }
                UpStep::Failed(
                    cat4(
                        "nebulad exited before it was ready (",
                        exit.as_str(),
                        ") — check ",
                        join(home, "logs/nebulad.log").as_str(),
                    ),
                )
            }
        },
        None => if seen.overdue {
            UpStep::Failed(
                cat3(
                    "nebulad did not become ready within 60s — check ",
                    home,
                    "/logs/nebulad.log",
                ),
            )
        } else {
            UpStep::Wait
        },
    }
}

/// A listener that did not bind, as it is reported.
pub open spec fn unbound(b: crate::ports::BindingView, lead: Seq<char>, open: Seq<char>, close: Seq<char>) -> Seq<char> {
    lead + b.addr + (match b.error {
        Some(e) => open + e + close,
        None => Seq::empty(),
    })
}

/// The warnings about listeners that did not bind.
pub open spec fn up_warnings(ports: Seq<crate::ports::BindingView>) -> Seq<Seq<char>>
    decreases ports.len(),
{
    if ports.len() == 0 {
        Seq::empty()
    } else {
        let before = up_warnings(ports.drop_last());
        let b = ports.last();
        if b.ok {
            before
        } else {
            before.push(unbound(b, "  warning: "@ + b.service + " did not bind on "@, " ("@, ")"@))
        }
    }
}

/// What is said of an engine that is up.
pub fn up_lines(elapsed: &str, vm_state: &str, ports: &Vec<PortBinding>) -> (r: Vec<String>)
    ensures
        crate::text::views(r@) == seq![
            "nebula up in "@ + elapsed@ + " (vm "@ + vm_state@ + ", agent healthy)"@,
        ] + up_warnings(crate::ports::binding_views(ports@)) + seq![
            "next: nebula setup docker — or run `nebula quickstart` for the guide"@,
        ],
{
    let mut out: Vec<String> = Vec::new();
    push_line(
        &mut out,
        cat5("nebula up in ", elapsed, " (vm ", vm_state, ", agent healthy)"),
    );
    let ghost first = crate::text::views(out@);
    let ghost all = crate::ports::binding_views(ports@);
    let mut i: usize = 0;
    proof {
        assert(all.take(0) =~= Seq::empty());
        assert(first + up_warnings(all.take(0)) =~= first);
    }
    while i < ports.len()
        invariant
            i <= ports@.len(),
            all == crate::ports::binding_views(ports@),
            crate::text::views(out@) == first + up_warnings(all.take(i as int)),
        decreases ports@.len() - i,
    {
        let ghost longer = all.take(i as int + 1);
        let ghost before = up_warnings(all.take(i as int));
        proof {
            assert(longer.drop_last() =~= all.take(i as int));
            assert(longer.last() == ports@[i as int]@);
        }
        if !ports[i].ok {
            let lead: String = cat3("  warning: ", ports[i].service.as_str(), " did not bind on ");
            let line: String = unbound_line(&ports[i], lead.as_str(), " (", ")");
            push_line(&mut out, line);
            assert(crate::text::views(out@) =~= first + before.push(line@));
        }
        i = i + 1;
    }
    assert(all.take(ports@.len() as int) =~= all);
    push_line(
        &mut out,
        owned("next: nebula setup docker — or run `nebula quickstart` for the guide"),
    );
    assert(crate::text::views(out@) =~= first + up_warnings(all) + seq![
        "next: nebula setup docker — or run `nebula quickstart` for the guide"@,
    ]);
    assert(first =~= seq![
        "nebula up in "@ + elapsed@ + " (vm "@ + vm_state@ + ", agent healthy)"@,
    ]);
    out
}

fn unbound_line(b: &PortBinding, lead: &str, open: &str, close: &str) -> (s: String)
    ensures
        s@ == unbound(b@, lead@, open@, close@),
{
    let mut s: String = cat2(lead, b.addr.as_str());
    match &b.error {
        Some(e) => {
            let t: String = cat3(open, e.as_str(), close);
            s.append(t.as_str());
        },
        None => {},
    }
    assert(s@ =~= unbound(b@, lead@, open@, close@));
    s
}

/// Why a request did not get the answer it wanted.
#[derive(Debug)]
pub enum Refused {
    /// The daemon said so, in these words.
    Said(String),
    /// The answer was of another kind.
    Unexpected,
}

/// What stopping the engine came to.
pub fn down_answer(resp: &DaemonResponse) -> (r: Result<(), Refused>)
    ensures
        match r {
            Ok(()) => *resp is Done,
            Err(Refused::Said(m)) => *resp matches DaemonResponse::Error { message } && m@
                == "stop failed: "@ + message@,
            Err(Refused::Unexpected) => !(*resp is Done) && !(*resp is Error),
        },
{
    match resp {
        DaemonResponse::Done => Ok(()),
        DaemonResponse::Error { message } => Err(
            Refused::Said(cat2("stop failed: ", message.as_str())),
        ),
        _ => Err(Refused::Unexpected),
    }
}

/// What a command in the guest came to.
#[derive(Debug)]
pub struct Ran {
    pub stdout: String,
    /// What the command wrote to its error stream, with a line about a timeout.
    pub stderr: String,
    pub exit_code: i32,
}

/// What is made of the answer to a command that was run in the guest.
pub open spec fn exec_answered(resp: DaemonResponse, r: Result<Ran, Refused>) -> bool {
    match (resp, r) {
        (DaemonResponse::Agent { response: AgentResponse::Exec(x) }, Ok(ran)) => ran.stdout@
            == x.stdout@ && ran.exit_code == x.exit_code && ran.stderr@ == (if x.timed_out {
            x.stderr@ + "nebula: command timed out\n"@
        } else {
            x.stderr@
        }),
        (
            DaemonResponse::Agent { response: AgentResponse::Error { message } },
            Err(Refused::Said(m)),
        ) => m@ == "exec failed: "@ + message@,
        (DaemonResponse::Error { message }, Err(Refused::Said(m))) => m@ == message@,
        (DaemonResponse::Agent { response: AgentResponse::Exec(x) }, _) => false,
        (DaemonResponse::Agent { response: AgentResponse::Error { message } }, _) => false,
        (DaemonResponse::Error { message }, _) => false,
        (_, r) => r is Err && r->Err_0 is Unexpected,
    }
}

/// The answer to a command that was run in the guest.
pub fn exec_answer(resp: &DaemonResponse) -> (r: Result<Ran, Refused>)
    ensures
        exec_answered(*resp, r),
{
    match resp {
        DaemonResponse::Agent { response } => match response {
            AgentResponse::Exec(x) => {
                let stderr: String = if x.timed_out {
                    cat2(x.stderr.as_str(), "nebula: command timed out\n")
                } else {
                    owned(x.stderr.as_str())
                };
                Ok(Ran { stdout: owned(x.stdout.as_str()), stderr, exit_code: x.exit_code })
            },
            AgentResponse::Error { message } => Err(
                Refused::Said(cat2("exec failed: ", message.as_str())),
            ),
            _ => Err(Refused::Unexpected),
        },
        DaemonResponse::Error { message } => Err(Refused::Said(owned(message.as_str()))),
        _ => Err(Refused::Unexpected),
    }
}

// Status

/// Where an instance listens.
#[derive(Debug)]
pub struct Listens {
    pub api_host: String,
    /// Zero where the API is off.
    pub api_port: u16,
    pub dns_port: u16,
}

/// What is said where no daemon runs.
pub fn stopped_lines() -> (r: Vec<String>)
    ensures
        crate::text::views(r@) == seq![
            "nebula: stopped (daemon not running)"@,
            "  start it:          nebula up"@,
            "  start at login:    nebula autostart enable"@,
        ],
{
    let mut out: Vec<String> = Vec::new();
    push_line(&mut out, owned("nebula: stopped (daemon not running)"));
    push_line(&mut out, owned("  start it:          nebula up"));
    push_line(&mut out, owned("  start at login:    nebula autostart enable"));
    assert(crate::text::views(out@) =~= seq![
        "nebula: stopped (daemon not running)"@,
        "  start it:          nebula up"@,
        "  start at login:    nebula autostart enable"@,
    ]);
    out
}

pub open spec fn dec(n: int) -> Seq<char> {
    crate::text::decimal(n as nat)
}

/// The listeners that failed, in order.
pub open spec fn failed_lines(ports: Seq<crate::ports::BindingView>) -> Seq<Seq<char>>
    decreases ports.len(),
{
    if ports.len() == 0 {
        Seq::empty()
    } else {
        let before = failed_lines(ports.drop_last());
        let b = ports.last();
        if b.ok {
            before
        } else {
            before.push(unbound(b, "    "@ + b.service + " on "@, " — "@, ""@))
        }
    }
}

/// What is said of the listeners.
pub open spec fn listener_lines(ports: Seq<crate::ports::BindingView>) -> Seq<Seq<char>> {
    let failed = failed_lines(ports);
    if failed.len() > 0 {
        seq!["  listeners: "@ + dec(failed.len() as int) + " FAILED to bind"@] + failed
    } else if ports.len() > 0 {
        seq!["  listeners: "@ + dec(ports.len() as int) + " bound, all healthy"@]
    } else {
        Seq::empty()
    }
}

/// The lines of a status.
pub open spec fn status_of(
    s: DaemonStatus,
    listens: Listens,
    ports: Seq<crate::ports::BindingView>,
    pointing: Seq<Seq<char>>,
    pressure: Option<Seq<char>>,
) -> Seq<Seq<char>> {
    seq![
        "nebula: "@ + crate::text::lowercased(s.vm_state@),
        "  backend:  "@ + s.backend@ + " | cpus "@ + dec(s.cpus as int) + " | max ram "@ + dec(
            s.mem_mib as int,
        ) + " MiB"@,
        "  daemon:   v"@ + s.daemon_version@ + " (pid "@ + dec(s.daemon_pid as int) + "), up "@
            + dec(s.uptime_secs as int) + "s"@,
        (match s.agent {
            Some(a) => "  agent:    v"@ + a.agent_version@ + " healthy | kernel "@ + a.kernel@
                + " | guest uptime "@ + dec(a.uptime_secs as int) + "s"@,
            None => "  agent:    UNREACHABLE"@,
        }),
        "  ports:    api "@ + (if listens.api_port == 0 {
            "off"@
        } else {
            listens.api_host@ + ":"@ + dec(listens.api_port as int)
        }) + " | dns udp "@ + dec(listens.dns_port as int) + " | k8s "@ + dec(
            s.net.k8s_port as int,
        ) + " | zone "@ + s.net.dns_zone@,
    ] + listener_lines(ports) + (if pointing.len() > 0 {
        seq!["  contexts: "@ + crate::text::joined(pointing, ", "@) + " → nebula"@]
    } else {
        Seq::empty()
    }) + (match s.mem {
        Some(m) => seq![
            "  guest mem: "@ + dec(m.available_kib as int / 1024) + " / "@ + dec(
                m.total_kib as int / 1024,
            ) + " MiB available"@ + pressure_part(pressure),
        ],
        None => Seq::empty(),
    })
}

/// The pressure at the end of a line, where it is known.
pub open spec fn pressure_part(pressure: Option<Seq<char>>) -> Seq<char> {
    match pressure {
        Some(p) => " | pressure "@ + p + "%"@,
        None => Seq::empty(),
    }
}

fn with_pressure(s: String, pressure: &Option<String>) -> (r: String)
    ensures
        r@ == s@ + pressure_part(crate::text::opt_view(*pressure)),
{
    match pressure {
        Some(p) => cat4(s.as_str(), " | pressure ", p.as_str(), "%"),
        None => {
            assert(s@ + Seq::<char>::empty() =~= s@);
            s
        },
    }
}

fn failed_listeners(ports: &Vec<PortBinding>) -> (r: Vec<String>)
    ensures
        crate::text::views(r@) == failed_lines(crate::ports::binding_views(ports@)),
{
    let mut out: Vec<String> = Vec::new();
    let ghost all = crate::ports::binding_views(ports@);
    let mut i: usize = 0;
    proof {
        assert(all.take(0) =~= Seq::empty());
        assert(crate::text::views(out@) =~= Seq::empty());
    }
    while i < ports.len()
        invariant
            i <= ports@.len(),
            all == crate::ports::binding_views(ports@),
            crate::text::views(out@) == failed_lines(all.take(i as int)),
        decreases ports@.len() - i,
    {
        let ghost longer = all.take(i as int + 1);
        proof {
            assert(longer.drop_last() =~= all.take(i as int));
            assert(longer.last() == ports@[i as int]@);
        }
        if !ports[i].ok {
            let lead: String = cat3("    ", ports[i].service.as_str(), " on ");
            let line: String = unbound_line(&ports[i], lead.as_str(), " — ", "");
            push_line(&mut out, line);
        }
        i = i + 1;
    }
    assert(all.take(ports@.len() as int) =~= all);
    out
}

fn push_all(out: &mut Vec<String>, more: &Vec<String>)
    ensures
        crate::text::views(final(out)@) == crate::text::views(old(out)@) + crate::text::views(
            more@,
        ),
{
    let ghost start = crate::text::views(out@);
    let ghost all = crate::text::views(more@);
    let mut i: usize = 0;
    assert(start + all.take(0) =~= start);
    while i < more.len()
        invariant
            i <= more@.len(),
            all == crate::text::views(more@),
            crate::text::views(out@) == start + all.take(i as int),
        decreases more@.len() - i,
    {
        push_line(out, owned(more[i].as_str()));
        assert(start + all.take(i as int + 1) =~= (start + all.take(i as int)).push(
            more@[i as int]@,
        ));
        i = i + 1;
    }
    assert(all.take(more@.len() as int) =~= all);
}

fn push_listeners(out: &mut Vec<String>, ports: &Vec<PortBinding>)
    ensures
        crate::text::views(final(out)@) == crate::text::views(old(out)@) + listener_lines(
            crate::ports::binding_views(ports@),
        ),
{
    let ghost start = crate::text::views(out@);
    let ghost want = listener_lines(crate::ports::binding_views(ports@));
    let failed: Vec<String> = failed_listeners(ports);
    let n: usize = failed.len();
    let bound: usize = ports.len();
    if n > 0 {
        push_line(
            out,
            cat3("  listeners: ", decimal_str(n as u64).as_str(), " FAILED to bind"),
        );
        push_all(out, &failed);
    } else if bound > 0 {
        push_line(
            out,
            cat3("  listeners: ", decimal_str(bound as u64).as_str(), " bound, all healthy"),
        );
    }
    assert(crate::text::views(out@) =~= start + want);
}

fn agent_line(s: &DaemonStatus) -> (l: String)
    ensures
        l@ == (match s.agent {
            Some(a) => "  agent:    v"@ + a.agent_version@ + " healthy | kernel "@ + a.kernel@
                + " | guest uptime "@ + dec(a.uptime_secs as int) + "s"@,
            None => "  agent:    UNREACHABLE"@,
        }),
{
    match &s.agent {
        Some(a) => {
            let mut l: String = cat5(
                "  agent:    v",
                a.agent_version.as_str(),
                " healthy | kernel ",
                a.kernel.as_str(),
                " | guest uptime ",
            );
            l.append(decimal_str(a.uptime_secs).as_str());
            l.append("s");
            l
        },
        None => owned("  agent:    UNREACHABLE"),
    }
}

fn ports_line(s: &DaemonStatus, listens: &Listens) -> (l: String)
    ensures
        l@ == "  ports:    api "@ + (if listens.api_port == 0 {
            "off"@
        } else {
            listens.api_host@ + ":"@ + dec(listens.api_port as int)
        }) + " | dns udp "@ + dec(listens.dns_port as int) + " | k8s "@ + dec(
            s.net.k8s_port as int,
        ) + " | zone "@ + s.net.dns_zone@,
{
    let api: String = if listens.api_port == 0 {
        owned("off")
    } else {
        cat3(listens.api_host.as_str(), ":", decimal_str(listens.api_port as u64).as_str())
    };
    let mut l: String = cat5(
        "  ports:    api ",
        api.as_str(),
        " | dns udp ",
        decimal_str(listens.dns_port as u64).as_str(),
        " | k8s ",
    );
    l.append(decimal_str(s.net.k8s_port as u64).as_str());
    l.append(" | zone ");
    l.append(s.net.dns_zone.as_str());
    l
}

/// The status of a running engine, line by line.
pub fn status_lines(
    s: &DaemonStatus,
    listens: &Listens,
    ports: &Vec<PortBinding>,
    pointing: &Vec<String>,
    pressure: &Option<String>,
) -> (r: Vec<String>)
    ensures
        crate::text::views(r@) == status_of(
            *s,
            *listens,
            crate::ports::binding_views(ports@),
            crate::text::views(pointing@),
            crate::text::opt_view(*pressure),
        ),
{
    let ghost want = status_of(
        *s,
        *listens,
        crate::ports::binding_views(ports@),
        crate::text::views(pointing@),
        crate::text::opt_view(*pressure),
    );
    let mut out: Vec<String> = Vec::new();
    push_line(&mut out, cat2("nebula: ", to_lowercase(s.vm_state.as_str()).as_str()));
    let mut backend: String = cat5(
        "  backend:  ",
        s.backend.as_str(),
        " | cpus ",
        decimal_str(s.cpus as u64).as_str(),
        " | max ram ",
    );
    backend.append(decimal_str(s.mem_mib).as_str());
    backend.append(" MiB");
    push_line(&mut out, backend);
    let mut daemon: String = cat5(
        "  daemon:   v",
        s.daemon_version.as_str(),
        " (pid ",
        decimal_str(s.daemon_pid as u64).as_str(),
        "), up ",
    );
    daemon.append(decimal_str(s.uptime_secs).as_str());
    daemon.append("s");
    push_line(&mut out, daemon);
    push_line(&mut out, agent_line(s));
    push_line(&mut out, ports_line(s, listens));
    let ghost top = crate::text::views(out@);
    push_listeners(&mut out, ports);
    let ghost second = crate::text::views(out@);
    if pointing.len() > 0 {
        push_line(
            &mut out,
            cat3("  contexts: ", join_text(pointing, ", ").as_str(), " → nebula"),
        );
    }
    let ghost third = crate::text::views(out@);
    match &s.mem {
        Some(m) => {
            let line: String = cat5(
                "  guest mem: ",
                decimal_str(m.available_kib / 1024).as_str(),
                " / ",
                decimal_str(m.total_kib / 1024).as_str(),
                " MiB available",
            );
            push_line(&mut out, with_pressure(line, pressure));
        },
        None => {},
    }
    assert(crate::text::views(out@) =~= want);
    out
}

/// The answer to a status request.
pub fn status_answer<'a>(resp: &'a DaemonResponse) -> (r: Result<&'a DaemonStatus, Refused>)
    ensures
        match (*resp, r) {
            (DaemonResponse::Status(s), Ok(t)) => *t == s,
            (DaemonResponse::Status(_), Err(_)) => false,
            (DaemonResponse::Error { message }, Err(Refused::Said(m))) => m@ == "status failed: "@
                + message@,
            (DaemonResponse::Error { message }, _) => false,
            (_, Err(Refused::Unexpected)) => true,
            (_, _) => false,
        },
{
    match resp {
        DaemonResponse::Status(s) => Ok(s),
        DaemonResponse::Error { message } => Err(
            Refused::Said(cat2("status failed: ", message.as_str())),
        ),
        _ => Err(Refused::Unexpected),
    }
}

// Stats

/// How much memory the guest uses of what it may keep, in MiB; none where the
/// figures contradict each other.
pub open spec fn used_mib(s: StatsView) -> Option<int> {
    match s.guest {
        Some(g) => if g.total_kib < g.available_kib || s.max_mib < s.balloon_target_mib {
            None
        } else {
            let busy = (g.total_kib - g.available_kib) / 1024;
            let held = s.max_mib - s.balloon_target_mib;
            let used = if busy > held {
                busy - held
            } else {
                0
            };
            Some(if used < s.balloon_target_mib {
                used
            } else {
                s.balloon_target_mib as int
            })
        },
        None => None,
    }
}

/// One line of statistics; none where the figures contradict each other.
pub fn stats_line(s: &StatsView, pressure: &Option<String>) -> (r: Option<String>)
    ensures
        crate::text::opt_view(r) == (match s.guest {
            Some(g) => match used_mib(*s) {
                Some(used) => Some(
                    "guest "@ + dec(used) + "/"@ + dec(s.balloon_target_mib as int)
                        + " MiB used (avail "@ + dec(g.available_kib as int / 1024)
                        + ") | balloon holds "@ + dec(s.max_mib - s.balloon_target_mib)
                        + " MiB of "@ + dec(s.max_mib as int) + " | host footprint "@ + dec(
                        s.host_footprint_mib as int,
                    ) + " MiB"@ + pressure_part(crate::text::opt_view(*pressure)),
                ),
                None => None,
            },
            None => Some("guest stats unavailable"@),
        }),
{
    match &s.guest {
        None => Some(owned("guest stats unavailable")),
        Some(g) => {
            if g.total_kib < g.available_kib || s.max_mib < s.balloon_target_mib {
                return None;
            }
            let busy: u64 = (g.total_kib - g.available_kib) / 1024;
            let held: u64 = s.max_mib - s.balloon_target_mib;
            let over: u64 = if busy > held {
                busy - held
            } else {
                0
            };
            let used: u64 = if over < s.balloon_target_mib {
                over
            } else {
                s.balloon_target_mib
            };
            let mut l: String = cat5(
                "guest ",
                decimal_str(used).as_str(),
                "/",
                decimal_str(s.balloon_target_mib).as_str(),
                " MiB used (avail ",
            );
            l.append(decimal_str(g.available_kib / 1024).as_str());
            l.append(") | balloon holds ");
            l.append(decimal_str(held).as_str());
            l.append(" MiB of ");
            l.append(decimal_str(s.max_mib).as_str());
            l.append(" | host footprint ");
            l.append(decimal_str(s.host_footprint_mib).as_str());
            l.append(" MiB");
            Some(with_pressure(l, pressure))
        },
    }
}

// The guide

/// The first lines of the guide.
pub open spec fn guide_start_of() -> Seq<Seq<char>> {
    seq![
        "\u{1b}[1mNEBULA QUICKSTART\u{1b}[0m"@,
        ""@,
        "\u{1b}[1m1. Engine\u{1b}[0m"@,
    ]
}

fn guide_start() -> (r: Vec<String>)
    ensures
        crate::text::views(r@) == guide_start_of(),
{
    let mut out: Vec<String> = Vec::new();
    push_line(&mut out, owned("\u{1b}[1mNEBULA QUICKSTART\u{1b}[0m"));
    push_line(&mut out, owned(""));
    push_line(&mut out, owned("\u{1b}[1m1. Engine\u{1b}[0m"));
    assert(crate::text::views(out@) =~= guide_start_of());
    out
}

/// The guide to docker and kubernetes.
pub open spec fn guide_middle_of() -> Seq<Seq<char>> {
    seq![
        "   nebula up                          start the engine (~0.6s)"@,
        "   nebula down                        stop it (containers stop too)"@,
        "   nebula autostart enable            start it at login + restart on failure"@,
        "   nebula status                      see where you stand anytime"@,
        ""@,
        "\u{1b}[1m2. Docker\u{1b}[0m"@,
        "   nebula setup docker                point `docker` at Nebula"@,
        "   docker run -d -p 8080:80 nginx     test it: http://localhost:8080"@,
        "   nebula revert docker               put docker back exactly as it was"@,
        "   nebula docker ps                   one-off, never touches your contexts"@,
        ""@,
        "\u{1b}[1m3. Kubernetes (k3s, starts on demand)\u{1b}[0m"@,
        "   nebula setup kubectl               point `kubectl` at Nebula"@,
        "   kubectl create deployment web --image=nginx"@,
        "   kubectl expose deployment web --port 80 --type NodePort"@,
        "   nebula revert kubectl              restore your previous context"@,
        "   nebula kubectl get nodes           one-off, never touches your contexts"@,
        ""@,
    ]
}

fn guide_middle() -> (r: Vec<String>)
    ensures
        crate::text::views(r@) == guide_middle_of(),
{
    let mut out: Vec<String> = Vec::new();
    push_line(&mut out, owned("   nebula up                          start the engine (~0.6s)"));
    push_line(&mut out, owned("   nebula down                        stop it (containers stop too)"));
    push_line(&mut out, owned("   nebula autostart enable            start it at login + restart on failure"));
    push_line(&mut out, owned("   nebula status                      see where you stand anytime"));
    push_line(&mut out, owned(""));
    push_line(&mut out, owned("\u{1b}[1m2. Docker\u{1b}[0m"));
    push_line(&mut out, owned("   nebula setup docker                point `docker` at Nebula"));
    push_line(&mut out, owned("   docker run -d -p 8080:80 nginx     test it: http://localhost:8080"));
    push_line(&mut out, owned("   nebula revert docker               put docker back exactly as it was"));
    push_line(&mut out, owned("   nebula docker ps                   one-off, never touches your contexts"));
    push_line(&mut out, owned(""));
    push_line(&mut out, owned("\u{1b}[1m3. Kubernetes (k3s, starts on demand)\u{1b}[0m"));
    push_line(&mut out, owned("   nebula setup kubectl               point `kubectl` at Nebula"));
    push_line(&mut out, owned("   kubectl create deployment web --image=nginx"));
    push_line(&mut out, owned("   kubectl expose deployment web --port 80 --type NodePort"));
    push_line(&mut out, owned("   nebula revert kubectl              restore your previous context"));
    push_line(&mut out, owned("   nebula kubectl get nodes           one-off, never touches your contexts"));
    push_line(&mut out, owned(""));
    assert(crate::text::views(out@) =~= guide_middle_of());
    out
}

/// The guide to vessels, the app and agents.
pub open spec fn guide_end_of() -> Seq<Seq<char>> {
    seq![
        "\u{1b}[1m4. Helm\u{1b}[0m"@,
        "   helm uses your kubectl context — `nebula setup kubectl` covers it too"@,
        "   nebula helm install my-redis oci://registry-1.docker.io/bitnamicharts/redis"@,
        ""@,
        "\u{1b}[1m5. Your own VMs\u{1b}[0m"@,
        "   nebula vessels new dev             persistent named microVM (--gpu for GPU)"@,
        "   nebula vessels shell dev           drop into it (ls/stop/rm to manage)"@,
        "   nebula vessels snapshot dev s1     disks + live RAM/processes on vz vessels"@,
        "                                      (--no-memory: ~10ms disk-only clone)"@,
        "   nebula sandbox run -- uname -a     or ephemeral: boots+runs+exits in ~250ms"@,
        ""@,
        "\u{1b}[1m6. Desktop app & stats\u{1b}[0m"@,
        "   nebula ui                          open the app"@,
        "   nebula stats --watch               watch the memory balloon breathe"@,
        ""@,
        "\u{1b}[1m7. Working with AI agents\u{1b}[0m"@,
        "   nebula skill > SKILL.md            full machine-readable usage guide"@,
        "                                      (vessels, snapshots, tree-search patterns)"@,
        ""@,
    ]
}

fn guide_end() -> (r: Vec<String>)
    ensures
        crate::text::views(r@) == guide_end_of(),
{
    let mut out: Vec<String> = Vec::new();
    push_line(&mut out, owned("\u{1b}[1m4. Helm\u{1b}[0m"));
    push_line(&mut out, owned("   helm uses your kubectl context — `nebula setup kubectl` covers it too"));
    push_line(&mut out, owned("   nebula helm install my-redis oci://registry-1.docker.io/bitnamicharts/redis"));
    push_line(&mut out, owned(""));
    push_line(&mut out, owned("\u{1b}[1m5. Your own VMs\u{1b}[0m"));
    push_line(&mut out, owned("   nebula vessels new dev             persistent named microVM (--gpu for GPU)"));
    push_line(&mut out, owned("   nebula vessels shell dev           drop into it (ls/stop/rm to manage)"));
    push_line(&mut out, owned("   nebula vessels snapshot dev s1     disks + live RAM/processes on vz vessels"));
    push_line(&mut out, owned("                                      (--no-memory: ~10ms disk-only clone)"));
    push_line(&mut out, owned("   nebula sandbox run -- uname -a     or ephemeral: boots+runs+exits in ~250ms"));
    push_line(&mut out, owned(""));
    push_line(&mut out, owned("\u{1b}[1m6. Desktop app & stats\u{1b}[0m"));
    push_line(&mut out, owned("   nebula ui                          open the app"));
    push_line(&mut out, owned("   nebula stats --watch               watch the memory balloon breathe"));
    push_line(&mut out, owned(""));
    push_line(&mut out, owned("\u{1b}[1m7. Working with AI agents\u{1b}[0m"));
    push_line(&mut out, owned("   nebula skill > SKILL.md            full machine-readable usage guide"));
    push_line(&mut out, owned("                                      (vessels, snapshots, tree-search patterns)"));
    push_line(&mut out, owned(""));
    assert(crate::text::views(out@) =~= guide_end_of());
    out
}

/// The guide, before the live status at its end.
pub fn quickstart(running: bool, missing: &Vec<String>, bundled: bool) -> (r: Vec<String>)
    ensures
        crate::text::views(r@) == guide_start_of() + (if running {
            seq!["   ✓ the engine is running"@]
        } else {
            Seq::empty()
        }) + guide_middle_of() + guide_end_of() + (if missing@.len() > 0 && bundled {
            seq![
                crate::text::joined(crate::text::views(missing@), ", "@)
                    + " not on your PATH — `nebula setup path` links the bundled copies"@,
                ""@,
            ]
        } else {
            Seq::empty()
        }) + (if running {
            Seq::empty()
        } else {
            seq!["engine is \u{1b}[1mstopped\u{1b}[0m — start with: nebula up"@]
        }),
{
    let mut out: Vec<String> = guide_start();
    if running {
        push_line(&mut out, owned("   ✓ the engine is running"));
    }
    let ghost a = crate::text::views(out@);
    assert(a =~= guide_start_of() + (if running {
        seq!["   ✓ the engine is running"@]
    } else {
        Seq::empty()
    }));
    push_all(&mut out, &guide_middle());
    push_all(&mut out, &guide_end());
    let ghost b = crate::text::views(out@);
    if missing.len() > 0 && bundled {
        push_line(
            &mut out,
            cat2(
                join_text(missing, ", ").as_str(),
                " not on your PATH — `nebula setup path` links the bundled copies",
            ),
        );
        push_line(&mut out, owned(""));
    }
    let ghost c = crate::text::views(out@);
    assert(c =~= b + (if missing@.len() > 0 && bundled {
        seq![
            crate::text::joined(crate::text::views(missing@), ", "@)
                + " not on your PATH — `nebula setup path` links the bundled copies"@,
            ""@,
        ]
    } else {
        Seq::empty()
    }));
    if !running {
        push_line(
            &mut out,
            owned("engine is \u{1b}[1mstopped\u{1b}[0m — start with: nebula up"),
        );
    }
    assert(crate::text::views(out@) =~= c + (if running {
        Seq::empty()
    } else {
        seq!["engine is \u{1b}[1mstopped\u{1b}[0m — start with: nebula up"@]
    }));
    out
}

// The self-check

/// One check: what it is of, whether it held, and what to do where it did not.
#[derive(Debug)]
pub struct Check {
    pub name: String,
    pub ok: bool,
    pub hint: String,
}

pub struct CheckView {
    pub name: Seq<char>,
    pub ok: bool,
    pub hint: Seq<char>,
}

impl View for Check {
    type V = CheckView;

    open spec fn view(&self) -> CheckView {
        CheckView { name: self.name@, ok: self.ok, hint: self.hint@ }
    }
}

pub open spec fn check_views(v: Seq<Check>) -> Seq<CheckView> {
    v.map_values(|c: Check| c@)
}

/// What was found on this machine.
#[derive(Debug, Clone, Copy, PartialEq, Eq, Structural)]
pub struct DoctorFacts {
    pub arm64: bool,
    pub kernel: bool,
    pub rootfs: bool,
    pub entitled: bool,
    pub rosetta: bool,
    pub tools: bool,
    pub daemon: bool,
    pub agent: bool,
}

pub open spec fn check_of(name: Seq<char>, ok: bool, hint: Seq<char>) -> CheckView {
    CheckView { name, ok, hint }
}

/// The checks, in order. The agent is asked only where a daemon runs.
pub open spec fn doctor_checks_of(f: DoctorFacts) -> Seq<CheckView> {
    seq![
        check_of("Apple Silicon (arm64)"@, f.arm64, "Nebula requires an Apple Silicon Mac"@),
        check_of(
            "kernel installed"@,
            f.kernel,
            "run `nebula up` (dev: vessel/build-kernel.sh then re-run nebula up)"@,
        ),
        check_of(
            "rootfs installed"@,
            f.rootfs,
            "run `nebula up` (dev: vessel/build-rootfs.sh then re-run nebula up)"@,
        ),
        check_of(
            "binary signed with virtualization entitlement"@,
            f.entitled,
            "run scripts/sign-dev.sh on the nebula + nebulad binaries"@,
        ),
        check_of(
            "Rosetta installed (amd64 containers)"@,
            f.rosetta,
            "run: softwareupdate --install-rosetta --agree-to-license"@,
        ),
        check_of(
            "docker/kubectl/helm available"@,
            f.tools,
            "run `nebula setup path` to use the copies bundled with Nebula"@,
        ),
        check_of("daemon running"@, f.daemon, "run `nebula up`"@),
    ] + (if f.daemon {
        seq![
            check_of(
                "guest agent healthy"@,
                f.agent,
                "check `nebula logs` for boot errors"@,
            ),
        ]
    } else {
        Seq::empty()
    })
}

fn push_check(out: &mut Vec<Check>, name: &str, ok: bool, hint: &str)
    ensures
        check_views(final(out)@) == check_views(old(out)@).push(check_of(name@, ok, hint@)),
{
    let ghost before = check_views(out@);
    out.push(Check { name: owned(name), ok, hint: owned(hint) });
    assert(check_views(out@) =~= before.push(check_of(name@, ok, hint@)));
}

/// The checks on this machine.
pub fn doctor_checks(f: &DoctorFacts) -> (r: Vec<Check>)
    ensures
        check_views(r@) == doctor_checks_of(*f),
{
    let mut out: Vec<Check> = Vec::new();
    push_check(
        &mut out,
        "Apple Silicon (arm64)",
        f.arm64,
        "Nebula requires an Apple Silicon Mac",
    );
    push_check(
        &mut out,
        "kernel installed",
        f.kernel,
        "run `nebula up` (dev: vessel/build-kernel.sh then re-run nebula up)",
    );
    push_check(
        &mut out,
        "rootfs installed",
        f.rootfs,
        "run `nebula up` (dev: vessel/build-rootfs.sh then re-run nebula up)",
    );
    push_check(
        &mut out,
        "binary signed with virtualization entitlement",
        f.entitled,
        "run scripts/sign-dev.sh on the nebula + nebulad binaries",
    );
    push_check(
        &mut out,
        "Rosetta installed (amd64 containers)",
        f.rosetta,
        "run: softwareupdate --install-rosetta --agree-to-license",
    );
    push_check(
        &mut out,
        "docker/kubectl/helm available",
        f.tools,
        "run `nebula setup path` to use the copies bundled with Nebula",
    );
    push_check(&mut out, "daemon running", f.daemon, "run `nebula up`");
    if f.daemon {
        push_check(
            &mut out,
            "guest agent healthy",
            f.agent,
            "check `nebula logs` for boot errors",
        );
    }
    assert(check_views(out@) =~= doctor_checks_of(*f));
    out
}

/// What is said of the first checks.
pub open spec fn checked_lines(checks: Seq<CheckView>) -> Seq<Seq<char>>
    decreases checks.len(),
{
    if checks.len() == 0 {
        Seq::empty()
    } else {
        let before = checked_lines(checks.drop_last());
        let c = checks.last();
        if c.ok {
            before.push("✓ "@ + c.name)
        } else {
            before.push("✗ "@ + c.name).push("    ↳ "@ + c.hint)
        }
    }
}

/// How many of the first checks did not hold.
pub open spec fn problems(checks: Seq<CheckView>) -> nat
    decreases checks.len(),
{
    if checks.len() == 0 {
        0
    } else {
        problems(checks.drop_last()) + (if checks.last().ok {
            0nat
        } else {
            1nat
        })
    }
}

/// The report of a self-check: its lines, and the error at its end.
#[derive(Debug)]
pub struct Doctored {
    pub lines: Vec<String>,
    pub failed: Option<String>,
}

/// Report on this machine.
pub fn doctor(f: &DoctorFacts) -> (r: Doctored)
    ensures
        ({
            let checks = doctor_checks_of(*f);
            let n = problems(checks);
            &&& crate::text::views(r.lines@) == checked_lines(checks) + (if n == 0 {
                seq!["\nall checks passed"@]
            } else {
                Seq::empty()
            })
            &&& crate::text::opt_view(r.failed) == (if n == 0 {
                None
            } else {
                Some(crate::text::decimal(n) + " problem(s) found"@)
            })
        }),
{
    let checks: Vec<Check> = doctor_checks(f);
    let ghost all = check_views(checks@);
    let mut out: Vec<String> = Vec::new();
    let mut n: u64 = 0;
    let mut i: usize = 0;
    proof {
        assert(all.take(0) =~= Seq::empty());
        assert(crate::text::views(out@) =~= Seq::empty());
        assert(all.len() <= 8);
    }
    while i < checks.len()
        invariant
            i <= checks@.len(),
            checks@.len() <= 8,
            all == check_views(checks@),
            crate::text::views(out@) == checked_lines(all.take(i as int)),
            n == problems(all.take(i as int)),
            n <= i,
        decreases checks@.len() - i,
    {
        let ghost longer = all.take(i as int + 1);
        proof {
            assert(longer.drop_last() =~= all.take(i as int));
            assert(longer.last() == checks@[i as int]@);
        }
        if checks[i].ok {
            push_line(&mut out, cat2("✓ ", checks[i].name.as_str()));
        } else {
            push_line(&mut out, cat2("✗ ", checks[i].name.as_str()));
            push_line(&mut out, cat2("    ↳ ", checks[i].hint.as_str()));
            n = n + 1;
        }
        i = i + 1;
    }
    assert(all.take(checks@.len() as int) =~= all);
    let ghost said = crate::text::views(out@);
    if n == 0 {
        push_line(&mut out, owned("\nall checks passed"));
        assert(crate::text::views(out@) =~= said + seq!["\nall checks passed"@]);
        Doctored { lines: out, failed: None }
    } else {
        assert(said + Seq::<Seq<char>>::empty() =~= said);
        Doctored { lines: out, failed: Some(cat2(decimal_str(n).as_str(), " problem(s) found")) }
    }
}

/// A machine has no problems exactly where every check holds.
pub proof fn healthy_means_every_check(f: DoctorFacts)
    ensures
        problems(doctor_checks_of(f)) == 0 <==> f.arm64 && f.kernel && f.rootfs && f.entitled
            && f.rosetta && f.tools && f.daemon && f.agent,
{
    let c = doctor_checks_of(f);
    lemma_problems(c);
    if f.daemon {
        assert(c.len() == 8);
        assert(c[0].ok == f.arm64 && c[1].ok == f.kernel && c[2].ok == f.rootfs && c[3].ok
            == f.entitled && c[4].ok == f.rosetta && c[5].ok == f.tools && c[6].ok == f.daemon
            && c[7].ok == f.agent);
    } else {
        assert(!c[6].ok);
    }
}

proof fn lemma_problems(c: Seq<CheckView>)
    ensures
        problems(c) == 0 <==> forall|i: int| 0 <= i < c.len() ==> (#[trigger] c[i]).ok,
    decreases c.len(),
{
    if c.len() > 0 {
        let short = c.drop_last();
        lemma_problems(short);
        if problems(c) == 0 {
            assert forall|i: int| 0 <= i < c.len() implies (#[trigger] c[i]).ok by {
                if i < short.len() {
                    assert(short[i].ok);
                }
            }
        }
        if forall|i: int| 0 <= i < c.len() ==> (#[trigger] c[i]).ok {
            assert forall|i: int| 0 <= i < short.len() implies (#[trigger] short[i]).ok by {
                assert(c[i].ok);
            }
            assert(c[c.len() - 1].ok);
        }
    }
}

/// What `tail` is asked for.
pub fn logs_args(follow: bool) -> (r: Vec<String>)
    ensures
        crate::text::views(r@) == (if follow {
            seq!["-f"@]
        } else {
            seq!["-n"@, "200"@]
        }),
{
    let mut out: Vec<String> = Vec::new();
    if follow {
        push_line(&mut out, owned("-f"));
        assert(crate::text::views(out@) =~= seq!["-f"@]);
    } else {
        push_line(&mut out, owned("-n"));
        push_line(&mut out, owned("200"));
        assert(crate::text::views(out@) =~= seq!["-n"@, "200"@]);
    }
    out
}

// Guest images

/// Why images are not installed.
#[derive(Debug)]
pub enum InstallError {
    /// The live engine holds the disk open; writing under it corrupts the guest.
    Running,
    /// A source is left open, and there is no build tree to take it from.
    NoBuildTree,
    NoKernel(String),
    NoRootfs(String),
}

impl InstallError {
    pub fn message(&self) -> (s: String)
        ensures
            s@ == (match *self {
                InstallError::Running => "the engine is running — stop it first: nebula down"@,
                InstallError::NoBuildTree => "not in a nebula repo (vessel/out not found)"@,
                InstallError::NoKernel(p) => "kernel not found: "@ + p@,
                InstallError::NoRootfs(p) => "rootfs not found: "@ + p@,
            }),
    {
        match self {
            InstallError::Running => owned("the engine is running — stop it first: nebula down"),
            InstallError::NoBuildTree => owned("not in a nebula repo (vessel/out not found)"),
            InstallError::NoKernel(p) => cat2("kernel not found: ", p.as_str()),
            InstallError::NoRootfs(p) => cat2("rootfs not found: ", p.as_str()),
        }
    }
}

/// Where a kernel and a root filesystem come from.
#[derive(Debug)]
pub struct Sources {
    pub kernel: String,
    pub rootfs: String,
}

/// The sources of an installation: those that were named, and the build
/// tree's for the others.
pub fn install_sources(
    running: bool,
    kernel: &Option<String>,
    rootfs: &Option<String>,
    build_tree: &Option<String>,
) -> (r: Result<Sources, InstallError>)
    ensures
        match r {
            Ok(s) => !running && (*kernel is Some && *rootfs is Some || *build_tree is Some)
                && s.kernel@ == (match *kernel {
                Some(k) => k@,
                None => joined_path((*build_tree)->0@, "Image"@),
            }) && s.rootfs@ == (match *rootfs {
                Some(k) => k@,
                None => joined_path((*build_tree)->0@, "rootfs.img"@),
            }),
            Err(InstallError::Running) => running,
            Err(InstallError::NoBuildTree) => !running && (*kernel is None || *rootfs is None)
                && *build_tree is None,
            Err(_) => false,
        },
{
    if running {
        return Err(InstallError::Running);
    }
    match (kernel, rootfs) {
        (Some(k), Some(r)) => Ok(
            Sources { kernel: owned(k.as_str()), rootfs: owned(r.as_str()) },
        ),
        _ => match build_tree {
            None => Err(InstallError::NoBuildTree),
            Some(out) => {
                let k: String = match kernel {
                    Some(k) => owned(k.as_str()),
                    None => join(out.as_str(), "Image"),
                };
                let r: String = match rootfs {
                    Some(r) => owned(r.as_str()),
                    None => join(out.as_str(), "rootfs.img"),
                };
                Ok(Sources { kernel: k, rootfs: r })
            },
        },
    }
}

/// One step of an installation.
#[derive(Debug)]
pub enum InstallStep {
    MakeDir(String),
    /// Put a source at every destination, in one pass over it.
    Place { src: String, dsts: Vec<String> },
    RemoveFile(String),
    /// Clone a file, sharing its extents where the filesystem can.
    CloneFile { src: String, dst: String },
    RemoveDir(String),
}

pub enum InstallStepView {
    MakeDir(Seq<char>),
    Place { src: Seq<char>, dsts: Seq<Seq<char>> },
    RemoveFile(Seq<char>),
    CloneFile { src: Seq<char>, dst: Seq<char> },
    RemoveDir(Seq<char>),
}

impl View for InstallStep {
    type V = InstallStepView;

    open spec fn view(&self) -> InstallStepView {
        match *self {
            InstallStep::MakeDir(p) => InstallStepView::MakeDir(p@),
            InstallStep::Place { src, dsts } => InstallStepView::Place {
                src: src@,
                dsts: crate::text::views(dsts@),
            },
            InstallStep::RemoveFile(p) => InstallStepView::RemoveFile(p@),
            InstallStep::CloneFile { src, dst } => InstallStepView::CloneFile {
                src: src@,
                dst: dst@,
            },
            InstallStep::RemoveDir(p) => InstallStepView::RemoveDir(p@),
        }
    }
}

pub open spec fn install_views(v: Seq<InstallStep>) -> Seq<InstallStepView> {
    v.map_values(|s: InstallStep| s@)
}

/// The steps of an installation. The untouched copy of the root filesystem is
/// kept beside the live disk; where files can share extents the live disk is
/// a clone of it, elsewhere both are filled in one pass.
pub open spec fn install_steps_of(
    home: Seq<char>,
    kernel: Seq<char>,
    rootfs: Seq<char>,
    reflink: bool,
) -> Seq<InstallStepView> {
    let pristine = joined_path(home, "images/rootfs-pristine.img"@);
    let live = joined_path(home, "disks/rootfs.img"@);
    seq![
        InstallStepView::MakeDir(joined_path(home, "kernel"@)),
        InstallStepView::MakeDir(joined_path(home, "disks"@)),
        InstallStepView::MakeDir(joined_path(home, "images"@)),
        InstallStepView::Place { src: kernel, dsts: seq![joined_path(home, "kernel/Image"@)] },
        InstallStepView::RemoveFile(live),
    ] + (if reflink {
        seq![
            InstallStepView::Place { src: rootfs, dsts: seq![pristine] },
            InstallStepView::CloneFile { src: pristine, dst: live },
        ]
    } else {
        seq![InstallStepView::Place { src: rootfs, dsts: seq![pristine, live] }]
    }) + seq![InstallStepView::RemoveDir(joined_path(home, "cache/image-install"@))]
}

fn push_install(out: &mut Vec<InstallStep>, s: InstallStep)
    ensures
        install_views(final(out)@) == install_views(old(out)@).push(s@),
{
    let ghost before = install_views(out@);
    out.push(s);
    assert(install_views(out@) =~= before.push(s@));
}

/// Plan an installation from sources that are there.
pub fn install_image(
    home: &str,
    sources: &Sources,
    kernel_there: bool,
    rootfs_there: bool,
    reflink: bool,
) -> (r: Result<Vec<InstallStep>, InstallError>)
    ensures
        match r {
            Ok(steps) => kernel_there && rootfs_there && install_views(steps@) == install_steps_of(
                home@,
                sources.kernel@,
                sources.rootfs@,
                reflink,
            ),
            Err(InstallError::NoKernel(p)) => !kernel_there && p@ == sources.kernel@,
            Err(InstallError::NoRootfs(p)) => kernel_there && !rootfs_there && p@
                == sources.rootfs@,
            Err(_) => false,
        },
{
    if !kernel_there {
        return Err(InstallError::NoKernel(owned(sources.kernel.as_str())));
    }
    if !rootfs_there {
        return Err(InstallError::NoRootfs(owned(sources.rootfs.as_str())));
    }
    let pristine: String = join(home, "images/rootfs-pristine.img");
    let live: String = join(home, "disks/rootfs.img");
    let mut out: Vec<InstallStep> = Vec::new();
    push_install(&mut out, InstallStep::MakeDir(join(home, "kernel")));
    push_install(&mut out, InstallStep::MakeDir(join(home, "disks")));
    push_install(&mut out, InstallStep::MakeDir(join(home, "images")));
    let one: Vec<String> = vec![join(home, "kernel/Image")];
    assert(crate::text::views(one@) =~= seq![joined_path(home@, "kernel/Image"@)]);
    push_install(
        &mut out,
        InstallStep::Place { src: owned(sources.kernel.as_str()), dsts: one },
    );
    push_install(&mut out, InstallStep::RemoveFile(owned(live.as_str())));
    if reflink {
        let one: Vec<String> = vec![owned(pristine.as_str())];
        assert(crate::text::views(one@) =~= seq![pristine@]);
        push_install(
            &mut out,
            InstallStep::Place { src: owned(sources.rootfs.as_str()), dsts: one },
        );
        push_install(&mut out, InstallStep::CloneFile { src: pristine, dst: live });
    } else {
        let two: Vec<String> = vec![owned(pristine.as_str()), owned(live.as_str())];
        assert(crate::text::views(two@) =~= seq![pristine@, live@]);
        push_install(
            &mut out,
            InstallStep::Place { src: owned(sources.rootfs.as_str()), dsts: two },
        );
    }
    push_install(&mut out, InstallStep::RemoveDir(join(home, "cache/image-install")));
    assert(install_views(out@) =~= install_steps_of(
        home@,
        sources.kernel@,
        sources.rootfs@,
        reflink,
    ));
    Ok(out)
}

/// An installation never writes the live disk before it removed the old one,
/// and it leaves an untouched copy beside it.
pub proof fn the_old_disk_goes_first(
    home: Seq<char>,
    kernel: Seq<char>,
    rootfs: Seq<char>,
    reflink: bool,
)
    ensures
        ({
            let steps = install_steps_of(home, kernel, rootfs, reflink);
            let live = joined_path(home, "disks/rootfs.img"@);
            let pristine = joined_path(home, "images/rootfs-pristine.img"@);
            exists|r: int|
                {
                    &&& 0 <= r < steps.len()
                    &&& #[trigger] steps[r] == InstallStepView::RemoveFile(live)
                    &&& r + 1 < steps.len()
                    &&& steps[r + 1] matches InstallStepView::Place { src, dsts } && src == rootfs
                        && dsts[0] == pristine
                    &&& (reflink ==> r + 2 < steps.len() && steps[r + 2]
                        == InstallStepView::CloneFile { src: pristine, dst: live })
                    &&& (!reflink ==> steps[r + 1]->dsts.contains(live))
                }
        }),
{
    let steps = install_steps_of(home, kernel, rootfs, reflink);
    let live = joined_path(home, "disks/rootfs.img"@);
    assert(steps[4] == InstallStepView::RemoveFile(live));
    if !reflink {
        assert(steps[5]->dsts[1] == live);
    }
}

/// Whether a source is one of its destinations.
pub fn onto_itself(same_file: &Vec<bool>) -> (r: bool)
    ensures
        r == same_file@.contains(true),
{
    let mut i: usize = 0;
    while i < same_file.len()
        invariant
            i <= same_file@.len(),
            forall|j: int| 0 <= j < i ==> !#[trigger] same_file@[j],
        decreases same_file@.len() - i,
    {
        if same_file[i] {
            assert(same_file@[i as int]);
            return true;
        }
        i = i + 1;
    }
    false
}

/// What placing an image comes to, from what it holds: the steps that write it
/// to each of its destinations and its size. A plain image is never copied
/// onto itself, which would empty it first.
pub open spec fn placed(
    src: Seq<char>,
    packed: bool,
    contents: Result<Seq<u8>, Seq<char>>,
    dsts: Seq<Seq<char>>,
    same_file: bool,
) -> Result<(Seq<OpView>, nat), Seq<char>> {
    if !packed && same_file {
        Err("refusing to install "@ + src + " onto itself"@)
    } else {
        match contents {
            Ok(c) => if dsts.len() == 0 {
                Err(install_text(src, dsts) + ": "@ + "no destination to write"@)
            } else {
                Ok((untouched().all_ops(seq![c]), c.len()))
            },
            Err(e) => Err(install_text(src, dsts) + ": "@ + e),
        }
    }
}

/// Place what an image holds.
pub fn place_contents(
    src: &str,
    packed: bool,
    contents: Result<Vec<u8>, String>,
    dsts: &Vec<String>,
    same_file: &Vec<bool>,
) -> (r: Result<(Vec<FileOp>, u64), String>)
    ensures
        ({
            let c = match contents {
                Ok(v) => Ok(v@),
                Err(e) => Err(e@),
            };
            let want = placed(
                src@,
                packed,
                c,
                crate::text::views(dsts@),
                same_file@.contains(true),
            );
            match r {
                Ok((ops, n)) => want == Ok::<(Seq<OpView>, nat), Seq<char>>(
                    (op_views(ops@), n as nat),
                ),
                Err(e) => want == Err::<(Seq<OpView>, nat), Seq<char>>(e@),
            }
        }),
{
    if !packed && onto_itself(same_file) {
        return Err(cat3("refusing to install ", src, " onto itself"));
    }
    match contents {
        Ok(c) => {
            let ghost cv = c@;
            let n: usize = c.len();
            let mut pieces: Vec<Vec<u8>> = Vec::new();
            pieces.push(c);
            proof {
                assert(piece_views(pieces@) =~= seq![cv]);
                reveal_with_fuel(crate::sparse::total_len, 2);
                assert(total_len(seq![cv]) == cv.len());
            }
            match write_sparse_many(&pieces, dsts.len()) {
                Ok((ops, size)) => Ok((ops, size)),
                Err(e) => Err(
                    cat3(install_name(src, dsts).as_str(), ": ", e.message().as_str()),
                ),
            }
        },
        Err(e) => Err(cat3(install_name(src, dsts).as_str(), ": ", e.as_str())),
    }
}

/// Place an image at every one of its destinations, unpacked where it is
/// packed, in one pass over it.
pub fn place_image(src: &str, bytes: Vec<u8>, dsts: &Vec<String>, same_file: &Vec<bool>) -> (r: Result<
    (Vec<FileOp>, u64),
    String,
>)
    ensures
        ({
            let want = placed(
                src@,
                crate::gzip::packed(bytes@),
                crate::gzip::held(bytes@),
                crate::text::views(dsts@),
                same_file@.contains(true),
            );
            match r {
                Ok((ops, n)) => want == Ok::<(Seq<OpView>, nat), Seq<char>>(
                    (op_views(ops@), n as nat),
                ),
                Err(e) => want == Err::<(Seq<OpView>, nat), Seq<char>>(e@),
            }
        }),
{
    if is_gzip(bytes.as_slice()) {
        let contents: Result<Vec<u8>, String> = gunzip(bytes.as_slice());
        place_contents(src, true, contents, dsts, same_file)
    } else {
        place_contents(src, false, Ok(bytes), dsts, same_file)
    }
}

/// What stands at a destination afterwards is what the image holds, byte for
/// byte.
pub proof fn the_image_is_installed(
    src: Seq<char>,
    packed: bool,
    contents: Seq<u8>,
    dsts: Seq<Seq<char>>,
    same_file: bool,
)
    requires
        placed(src, packed, Ok(contents), dsts, same_file) is Ok,
    ensures
        ({
            let (ops, n) = placed(src, packed, Ok(contents), dsts, same_file)->Ok_0;
            new_file().steps(ops).data == contents && n == contents.len()
        }),
{
    let pieces = seq![contents];
    crate::sparse::sparse_copy_is_dense_copy(pieces);
    assert(pieces.drop_last() =~= Seq::empty());
    reveal_with_fuel(Seq::flatten, 2);
    assert(pieces.drop_first() =~= Seq::empty());
    assert(pieces.flatten() =~= contents);
}

/// What an installation is called.
pub open spec fn install_text(src: Seq<char>, dsts: Seq<Seq<char>>) -> Seq<char> {
    "install "@ + src + " -> "@ + crate::text::joined(dsts, ", "@)
}

/// What an installation is called where it fails.
pub fn install_name(src: &str, dsts: &Vec<String>) -> (s: String)
    ensures
        s@ == install_text(src@, crate::text::views(dsts@)),
{
    cat4("install ", src, " -> ", join_text(dsts, ", ").as_str())
}

/// The line on how much of a root filesystem the disk holds.
pub fn on_disk_line(physical: u64, logical: u64) -> (s: String)
    ensures
        s@ == "  rootfs "@ + dec(physical as int / 1048576) + " MiB on disk of "@ + dec(
            logical as int / 1048576,
        ) + " MiB logical"@,
{
    cat5(
        "  rootfs ",
        decimal_str(physical / 1048576).as_str(),
        " MiB on disk of ",
        decimal_str(logical / 1048576).as_str(),
        " MiB logical",
    )
}

/// The tag of the images for a host: the guest's architecture is the host's.
pub fn images_arch(arch: &str) -> (r: &'static str)
    ensures
        r@ == (if arch@ == "aarch64"@ {
            "arm64"@
        } else {
            "x86_64"@
        }),
{
    if same(arch, "aarch64") {
        "arm64"
    } else {
        "x86_64"
    }
}

/// Where released images come from, unless told otherwise.
pub const IMAGES_BASE_URL: &'static str = "https://github.com/Flux159/nebula/releases/latest/download";

/// The release that images come from.
pub fn images_url(env: &Option<String>) -> (s: String)
    ensures
        s@ == (match *env {
            Some(u) => u@,
            None => IMAGES_BASE_URL@,
        }),
{
    match env {
        Some(u) => owned(u.as_str()),
        None => owned(IMAGES_BASE_URL),
    }
}

/// What is downloaded: the checksums first, then the kernel and the root
/// filesystem.
pub fn image_files(arch: &str) -> (r: Vec<String>)
    ensures
        crate::text::views(r@) == seq![
            "SHA256SUMS-"@ + arch@,
            "kernel-Image-"@ + arch@ + ".gz"@,
            "rootfs-"@ + arch@ + ".img.gz"@,
        ],
{
    let mut out: Vec<String> = Vec::new();
    push_line(&mut out, cat2("SHA256SUMS-", arch));
    push_line(&mut out, cat3("kernel-Image-", arch, ".gz"));
    push_line(&mut out, cat3("rootfs-", arch, ".img.gz"));
    assert(crate::text::views(out@) =~= seq![
        "SHA256SUMS-"@ + arch@,
        "kernel-Image-"@ + arch@ + ".gz"@,
        "rootfs-"@ + arch@ + ".img.gz"@,
    ]);
    out
}

/// How one of them is downloaded.
pub fn download_args(dir: &str, base: &str, name: &str) -> (r: Vec<String>)
    ensures
        crate::text::views(r@) == seq![
            "-fL"@,
            "--retry"@,
            "3"@,
            "--progress-bar"@,
            "-o"@,
            joined_path(dir@, name@),
            base@ + "/"@ + name@,
        ],
{
    let mut out: Vec<String> = Vec::new();
    push_line(&mut out, owned("-fL"));
    push_line(&mut out, owned("--retry"));
    push_line(&mut out, owned("3"));
    push_line(&mut out, owned("--progress-bar"));
    push_line(&mut out, owned("-o"));
    push_line(&mut out, join(dir, name));
    push_line(&mut out, cat3(base, "/", name));
    assert(crate::text::views(out@) =~= seq![
        "-fL"@,
        "--retry"@,
        "3"@,
        "--progress-bar"@,
        "-o"@,
        joined_path(dir@, name@),
        base@ + "/"@ + name@,
    ]);
    out
}

/// What brings the guest images.
#[derive(Debug, Clone, Copy, PartialEq, Eq, Structural)]
pub enum ImagesFrom {
    /// They are installed.
    Installed,
    /// A build tree has them.
    BuildTree,
    /// They are downloaded.
    Release,
}

/// Where the guest images come from.
pub fn ensure_images_installed(
    kernel: bool,
    rootfs: bool,
    tree_kernel: bool,
    tree_rootfs: bool,
) -> (r: ImagesFrom)
    ensures
        r == (if kernel && rootfs {
            ImagesFrom::Installed
        } else if tree_kernel && tree_rootfs {
            ImagesFrom::BuildTree
        } else {
            ImagesFrom::Release
        }),
{
    if kernel && rootfs {
        ImagesFrom::Installed
    } else if tree_kernel && tree_rootfs {
        ImagesFrom::BuildTree
    } else {
        ImagesFrom::Release
    }
}

/// The daemon is not beside the command.
pub fn no_daemon_binary(path: &str) -> (s: String)
    ensures
        s@ == "nebulad binary not found next to nebula ("@ + path@ + ")"@,
{
    cat3("nebulad binary not found next to nebula (", path, ")")
}

/// There is nothing to show.
pub fn no_console_log(path: &str) -> (s: String)
    ensures
        s@ == "no console log at "@ + path@,
{
    cat2("no console log at ", path)
}

/// A download failed.
pub fn download_failed(base: &str, name: &str) -> (s: String)
    ensures
        s@ == "download failed: "@ + base@ + "/"@ + name@,
{
    cat4("download failed: ", base, "/", name)
}

/// How many of the listeners did not bind.
pub open spec fn failures(ports: Seq<crate::ports::BindingView>) -> nat
    decreases ports.len(),
{
    if ports.len() == 0 {
        0
    } else {
        failures(ports.drop_last()) + (if ports.last().ok {
            0nat
        } else {
            1
        })
    }
}

/// Every listener that did not bind is told of, with its service, its address
/// and the reason where there is one; and nothing is told of the others.
pub proof fn every_failed_listener_is_told(ports: Seq<crate::ports::BindingView>, k: int)
    requires
        0 <= k < ports.len(),
    ensures
        up_warnings(ports).len() == failures(ports),
        failed_lines(ports).len() == failures(ports),
        !ports[k].ok ==> up_warnings(ports).contains(
            "  warning: "@ + ports[k].service + " did not bind on "@ + ports[k].addr + (
            match ports[k].error {
                Some(e) => " ("@ + e + ")"@,
                None => Seq::empty(),
            }),
        ) && failed_lines(ports).contains(
            "    "@ + ports[k].service + " on "@ + ports[k].addr + (match ports[k].error {
                Some(e) => " — "@ + e + ""@,
                None => Seq::empty(),
            }),
        ),
    decreases ports.len(),
{
    let short = ports.drop_last();
    let n = ports.len() - 1;
    let (w0, w) = (up_warnings(short), up_warnings(ports));
    let (f0, f) = (failed_lines(short), failed_lines(ports));
    if n > 0 {
        every_failed_listener_is_told(
            short,
            if k < n {
                k
            } else {
                0
            },
        );
    } else {
        assert(short =~= Seq::empty());
        assert(w0 =~= Seq::empty());
        assert(f0 =~= Seq::empty());
        assert(failures(short) == 0);
    }
    if !ports[k].ok {
        if k < n {
            assert(short[k] == ports[k]);
            let a = unbound(
                ports[k],
                "  warning: "@ + ports[k].service + " did not bind on "@,
                " ("@,
                ")"@,
            );
            let i = choose|i: int| 0 <= i < w0.len() && w0[i] == a;
            assert(w[i] == a);
            let b = unbound(ports[k], "    "@ + ports[k].service + " on "@, " — "@, ""@);
            let j = choose|j: int| 0 <= j < f0.len() && f0[j] == b;
            assert(f[j] == b);
        } else {
            assert(w[w.len() - 1] == unbound(
                ports[k],
                "  warning: "@ + ports[k].service + " did not bind on "@,
                " ("@,
                ")"@,
            ));
            assert(f[f.len() - 1] == unbound(
                ports[k],
                "    "@ + ports[k].service + " on "@,
                " — "@,
                ""@,
            ));
        }
    }
}

/// The listeners are called healthy just where there are some and all are
/// bound, and how many failed is said where any did.
pub proof fn when_listeners_are_healthy(ports: Seq<crate::ports::BindingView>)
    requires
        ports.len() > 0,
    ensures
        failures(ports) == 0 ==> listener_lines(ports) == seq![
            "  listeners: "@ + crate::text::decimal(ports.len()) + " bound, all healthy"@,
        ],
        failures(ports) > 0 ==> listener_lines(ports).len() == 1 + failures(ports)
            && listener_lines(ports)[0] == "  listeners: "@ + crate::text::decimal(failures(ports))
            + " FAILED to bind"@,
        failures(ports) == 0 <==> forall|i: int| 0 <= i < ports.len() ==> (#[trigger] ports[i]).ok,
{
    every_failed_listener_is_told(ports, 0);
    lemma_failures(ports);
}

proof fn lemma_failures(ports: Seq<crate::ports::BindingView>)
    ensures
        failures(ports) == 0 <==> forall|i: int| 0 <= i < ports.len() ==> (#[trigger] ports[i]).ok,
    decreases ports.len(),
{
    if ports.len() > 0 {
        let short = ports.drop_last();
        lemma_failures(short);
        if failures(ports) == 0 {
            assert forall|i: int| 0 <= i < ports.len() implies (#[trigger] ports[i]).ok by {
                if i < short.len() {
                    assert(short[i].ok);
                }
            }
        }
        if forall|i: int| 0 <= i < ports.len() ==> (#[trigger] ports[i]).ok {
            assert forall|i: int| 0 <= i < short.len() implies (#[trigger] short[i]).ok by {
                assert(ports[i].ok);
            }
            assert(ports[ports.len() - 1].ok);
        }
    }
}

/// What does not hold is told with what helps, in the lines behind it.
pub proof fn a_problem_is_told_with_its_hint(checks: Seq<CheckView>, k: int)
    requires
        0 <= k < checks.len(),
    ensures
        checks[k].ok ==> checked_lines(checks).contains("✓ "@ + checks[k].name),
        !checks[k].ok ==> exists|i: int|
            0 <= i < checked_lines(checks).len() - 1 && #[trigger] checked_lines(checks)[i] == "✗ "@
                + checks[k].name && checked_lines(checks)[i + 1] == "    ↳ "@ + checks[k].hint,
    decreases checks.len(),
{
    let short = checks.drop_last();
    let (a, b) = (checked_lines(short), checked_lines(checks));
    if k < checks.len() - 1 {
        assert(short[k] == checks[k]);
        a_problem_is_told_with_its_hint(short, k);
        if checks[k].ok {
            let i = choose|i: int| 0 <= i < a.len() && a[i] == "✓ "@ + checks[k].name;
            assert(b[i] == a[i]);
        } else {
            let i = choose|i: int|
                0 <= i < a.len() - 1 && #[trigger] a[i] == "✗ "@ + checks[k].name && a[i + 1]
                    == "    ↳ "@ + checks[k].hint;
            assert(b[i] == a[i] && b[i + 1] == a[i + 1]);
        }
    } else if checks[k].ok {
        assert(b[b.len() - 1] == "✓ "@ + checks[k].name);
    } else {
        let i = b.len() - 2;
        assert(b[i] == "✗ "@ + checks[k].name && b[i + 1] == "    ↳ "@ + checks[k].hint);
    }
}

/// The kernel is placed where a boot looks for it, in a directory that was made
/// before, and what was downloaded goes last.
pub proof fn the_kernel_is_installed(
    home: Seq<char>,
    kernel: Seq<char>,
    rootfs: Seq<char>,
    reflink: bool,
)
    ensures
        ({
            let steps = install_steps_of(home, kernel, rootfs, reflink);
            &&& steps[0] == InstallStepView::MakeDir(joined_path(home, "kernel"@))
            &&& steps[1] == InstallStepView::MakeDir(joined_path(home, "disks"@))
            &&& steps[2] == InstallStepView::MakeDir(joined_path(home, "images"@))
            &&& steps[3] == (InstallStepView::Place {
                src: kernel,
                dsts: seq![joined_path(home, "kernel/Image"@)],
            })
            &&& steps.last() == InstallStepView::RemoveDir(
                joined_path(home, "cache/image-install"@),
            )
            &&& steps.len() == (if reflink {
                8nat
            } else {
                7
            })
        }),
{
}

/// What is used is what is busy beyond what the balloon holds, and never more
/// than the guest may keep.
pub proof fn what_is_used_fits(s: StatsView)
    ensures
        used_mib(s) matches Some(n) ==> 0 <= n <= s.balloon_target_mib,
        s.guest is Some ==> ({
            let busy = (s.guest->0.total_kib - s.guest->0.available_kib) / 1024;
            let held = s.max_mib - s.balloon_target_mib;
            used_mib(s) matches Some(n) ==> (0 < n < s.balloon_target_mib ==> n + held == busy)
                && (n == 0 ==> busy <= held || s.balloon_target_mib == 0)
        }),
        used_mib(s) is None <==> (s.guest is None || s.guest->0.total_kib
            < s.guest->0.available_kib || s.max_mib < s.balloon_target_mib),
{
}

/// A command's output, errors and exit code are those of the guest; a timeout
/// is told behind the errors; and every other answer is an error.
pub proof fn what_a_command_gave(resp: DaemonResponse, r: Result<Ran, Refused>)
    requires
        exec_answered(resp, r),
    ensures
        r is Ok <==> (resp matches DaemonResponse::Agent { response: AgentResponse::Exec(_) }),
        resp matches DaemonResponse::Agent { response: AgentResponse::Exec(x) } ==> r->Ok_0.stdout@
            == x.stdout@ && r->Ok_0.exit_code == x.exit_code && (!x.timed_out ==> r->Ok_0.stderr@
            == x.stderr@) && (x.timed_out ==> r->Ok_0.stderr@ == x.stderr@
            + "nebula: command timed out\n"@),
        resp matches DaemonResponse::Error { message } ==> (r matches Err(Refused::Said(m)) && m@
            == message@),
{
}

/// A daemon that is healthy is up, whatever else is seen of it; one that exited
/// or took too long is not, and any other is waited for.
pub proof fn when_the_daemon_is_up(seen: UpSeen, home: Seq<char>, r: UpStep)
    requires
        up_looked(seen, home, r),
    ensures
        r is Ready <==> seen.healthy,
        r is Wait <==> !seen.healthy && seen.exited is None && !seen.overdue,
        r is Failed <==> !seen.healthy && (seen.exited is Some || seen.overdue),
{
}

} // verus!

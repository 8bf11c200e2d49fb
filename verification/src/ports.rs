//! Port planning, the startup preflight, and the live bind report.
//!
//! Two instances share the host's port space. So the configured ports are
//! probed before the VM boots. On a conflict the daemon either refuses to
//! start, naming the port and, best effort, the instance holding it, or picks
//! free ports and says which. Whatever binds afterwards is recorded in a
//! report, so that a damaged instance is visible.

use crate::api::DEFAULT_API_PORT;
use crate::config::Config;
use crate::proto::HOST_DNS_UDP_PORT;
use crate::text::{
    cat2, cat3, cat4, cat5, contains, decimal_str, ends_with, lines, opt_owned, owned, parse_u32,
    replace_char, same, split_char, strip_suffix, to_chars, words,
};
use crate::vessels::{lex_le, text_le};
use vstd::prelude::*;
use vstd::string::{StrSliceExecFns, StringExecFns};

verus! {

pub const DEFAULT_K8S_PORT: u16 = 6443;

pub const DEFAULT_DNS_ZONE: &'static str = "nebula.local";

/// Every host port that an instance intends to own. The preflight probes
/// exactly what the services later bind.
#[derive(Debug)]
pub struct PortPlan {
    pub api_host: String,
    /// 0 disables the REST API, and its check.
    pub api_port: u16,
    pub dns_port: u16,
    pub k8s_port: u16,
    pub dns_zone: String,
}

pub struct PlanView {
    pub api_host: Seq<char>,
    pub api_port: u16,
    pub dns_port: u16,
    pub k8s_port: u16,
    pub dns_zone: Seq<char>,
}

impl View for PortPlan {
    type V = PlanView;

    open spec fn view(&self) -> PlanView {
        PlanView {
            api_host: self.api_host@,
            api_port: self.api_port,
            dns_port: self.dns_port,
            k8s_port: self.k8s_port,
            dns_zone: self.dns_zone@,
        }
    }
}

/// The setting that a port comes from.
#[derive(Debug, Clone, Copy, PartialEq, Eq, Structural)]
pub enum Setting {
    Api,
    Dns,
    K8s,
}

impl Setting {
    pub open spec fn text(self) -> Seq<char> {
        match self {
            Setting::Api => "api_port"@,
            Setting::Dns => "dns_port"@,
            Setting::K8s => "k8s_port"@,
        }
    }

    pub fn name(self) -> (s: &'static str)
        ensures
            s@ == self.text(),
    {
        match self {
            Setting::Api => "api_port",
            Setting::Dns => "dns_port",
            Setting::K8s => "k8s_port",
        }
    }
}

#[derive(Debug, Clone, Copy, PartialEq, Eq, Structural)]
pub enum Proto {
    Tcp,
    Udp,
}

impl Proto {
    pub open spec fn text(self) -> Seq<char> {
        match self {
            Proto::Tcp => "tcp"@,
            Proto::Udp => "udp"@,
        }
    }

    pub fn as_str(self) -> (s: &'static str)
        ensures
            s@ == self.text(),
    {
        match self {
            Proto::Tcp => "tcp",
            Proto::Udp => "udp",
        }
    }
}

/// A port to probe.
#[derive(Debug)]
pub struct PortCheck {
    pub setting: Setting,
    pub host: String,
    pub port: u16,
    pub proto: Proto,
}

pub struct CheckView {
    pub setting: Setting,
    pub host: Seq<char>,
    pub port: u16,
    pub proto: Proto,
}

impl View for PortCheck {
    type V = CheckView;

    open spec fn view(&self) -> CheckView {
        CheckView { setting: self.setting, host: self.host@, port: self.port, proto: self.proto }
    }
}

pub open spec fn check_views(v: Seq<PortCheck>) -> Seq<CheckView> {
    v.map_values(|c: PortCheck| c@)
}

/// The fixed service ports, in the order in which they are reported. The DNS
/// server binds the wildcard: the guest reaches it on the NAT gateway's
/// address, not on loopback.
pub open spec fn checks_of(p: PlanView) -> Seq<CheckView> {
    (if p.api_port != 0 {
        seq![
            CheckView {
                setting: Setting::Api,
                host: p.api_host,
                port: p.api_port,
                proto: Proto::Tcp,
            },
        ]
    } else {
        Seq::empty()
    }) + seq![
        CheckView {
            setting: Setting::Dns,
            host: "0.0.0.0"@,
            port: p.dns_port,
            proto: Proto::Udp,
        },
        CheckView {
            setting: Setting::K8s,
            host: "127.0.0.1"@,
            port: p.k8s_port,
            proto: Proto::Tcp,
        },
    ]
}

/// What a configuration and the environment's API host plan.
pub open spec fn planned(cfg: Config, env_host: Option<String>, p: PlanView) -> bool {
    &&& p.api_host == (match env_host {
        Some(h) if h@.len() > 0 => h@,
        _ => match cfg.api_host {
            Some(h) => h@,
            None => "127.0.0.1"@,
        },
    })
    &&& p.api_port == (match cfg.api_port {
        Some(n) => n,
        None => DEFAULT_API_PORT,
    })
    &&& p.dns_port == (match cfg.dns_port {
        Some(n) => n,
        None => HOST_DNS_UDP_PORT,
    })
    &&& p.k8s_port == (match cfg.k8s_port {
        Some(n) => n,
        None => DEFAULT_K8S_PORT,
    })
    &&& p.dns_zone == (match cfg.dns_zone {
        Some(z) => z@,
        None => "nebula.local"@,
    })
}

impl PortPlan {
    /// The plan of a configuration. The environment's API host, where it is
    /// not empty, wins over the configured one.
    pub fn resolve(cfg: &Config, env_host: &Option<String>) -> (p: PortPlan)
        ensures
            planned(*cfg, *env_host, p@),
    {
        let configured: String = match &cfg.api_host {
            Some(h) => owned(h.as_str()),
            None => owned("127.0.0.1"),
        };
        let api_host: String = match env_host {
            Some(h) => if h.as_str().unicode_len() > 0 {
                owned(h.as_str())
            } else {
                configured
            },
            None => configured,
        };
        PortPlan {
            api_host,
            api_port: match cfg.api_port {
                Some(n) => n,
                None => DEFAULT_API_PORT,
            },
            dns_port: match cfg.dns_port {
                Some(n) => n,
                None => HOST_DNS_UDP_PORT,
            },
            k8s_port: match cfg.k8s_port {
                Some(n) => n,
                None => DEFAULT_K8S_PORT,
            },
            dns_zone: match &cfg.dns_zone {
                Some(z) => owned(z.as_str()),
                None => owned("nebula.local"),
            },
        }
    }

    /// The ports to probe.
    pub fn checks(&self) -> (v: Vec<PortCheck>)
        ensures
            check_views(v@) == checks_of(self@),
    {
        let mut v: Vec<PortCheck> = Vec::new();
        if self.api_port != 0 {
            v.push(
                PortCheck {
                    setting: Setting::Api,
                    host: owned(self.api_host.as_str()),
                    port: self.api_port,
                    proto: Proto::Tcp,
                },
            );
        }
        v.push(
            PortCheck {
                setting: Setting::Dns,
                host: owned("0.0.0.0"),
                port: self.dns_port,
                proto: Proto::Udp,
            },
        );
        v.push(
            PortCheck {
                setting: Setting::K8s,
                host: owned("127.0.0.1"),
                port: self.k8s_port,
                proto: Proto::Tcp,
            },
        );
        assert(check_views(v@) =~= checks_of(self@));
        v
    }
}

/// What to do when a configured port is already taken.
#[derive(Debug, Clone, Copy, PartialEq, Eq, Structural)]
pub enum ConflictPolicy {
    /// Refuse to start (default): an explicit port is a promise to clients.
    Fail,
    /// Pick the next free port.
    Auto,
}

/// A policy that there is not.
#[derive(Debug)]
pub struct BadPolicy {
    pub value: String,
}

/// The policy's setting: the environment's, where it is not empty, or the
/// configuration's.
pub open spec fn policy_setting(cfg: Config, env: Option<String>) -> Option<Seq<char>> {
    match env {
        Some(v) if v@.len() > 0 => Some(v@),
        _ => crate::text::opt_view(cfg.port_conflict),
    }
}

impl ConflictPolicy {
    pub fn resolve(cfg: &Config, env: &Option<String>) -> (r: Result<ConflictPolicy, BadPolicy>)
        ensures
            ({
                let s = policy_setting(*cfg, *env);
                match r {
                    Ok(ConflictPolicy::Fail) => s is None || s == Some("fail"@),
                    Ok(ConflictPolicy::Auto) => s == Some("auto"@),
                    Err(e) => s == Some(e.value@) && e.value@ != "fail"@ && e.value@ != "auto"@,
                }
            }),
    {
        proof {
            reveal_strlit("fail");
            reveal_strlit("auto");
            assert("fail"@[0] != "auto"@[0]);
        }
        let configured: Option<String> = opt_owned(&cfg.port_conflict);
        let setting: Option<String> = match env {
            Some(v) => if v.as_str().unicode_len() > 0 {
                Some(owned(v.as_str()))
            } else {
                configured
            },
            None => configured,
        };
        match setting {
            None => Ok(ConflictPolicy::Fail),
            Some(s) => if same(s.as_str(), "fail") {
                Ok(ConflictPolicy::Fail)
            } else if same(s.as_str(), "auto") {
                Ok(ConflictPolicy::Auto)
            } else {
                Err(BadPolicy { value: s })
            },
        }
    }
}

// --- who holds a port -------------------------------------------------------------

/// The process holding a port, and, where it is another daemon, which one.
#[derive(Debug)]
pub struct Holder {
    pub pid: u32,
    pub command: String,
    pub home: Option<String>,
}

pub struct HolderView {
    pub pid: u32,
    pub command: Seq<char>,
    pub home: Option<Seq<char>>,
}

impl View for Holder {
    type V = HolderView;

    open spec fn view(&self) -> HolderView {
        HolderView {
            pid: self.pid,
            command: self.command@,
            home: crate::text::opt_view(self.home),
        }
    }
}

impl HolderView {
    pub open spec fn text(self) -> Seq<char> {
        match self.home {
            Some(h) => "nebulad pid "@ + crate::text::decimal(self.pid as nat) + " (NEBULA_HOME="@
                + h + ")"@,
            None => self.command + " pid "@ + crate::text::decimal(self.pid as nat),
        }
    }
}

impl Holder {
    pub fn describe(&self) -> (s: String)
        ensures
            s@ == self@.text(),
    {
        let pid: String = decimal_str(self.pid as u64);
        match &self.home {
            Some(h) => cat5("nebulad pid ", pid.as_str(), " (NEBULA_HOME=", h.as_str(), ")"),
            None => cat3(self.command.as_str(), " pid ", pid.as_str()),
        }
    }
}

/// The holder, from the owner of the port and the home that was found for it.
/// Only another daemon has a home.
pub fn holder_of(owner: Option<(u32, String)>, home: Option<String>) -> (r: Option<Holder>)
    ensures
        match owner {
            Some((pid, command)) => r is Some && r->0@ == (HolderView {
                pid,
                command: command@,
                home: if crate::text::has_part(command@, "nebulad"@) {
                    crate::text::opt_view(home)
                } else {
                    None
                },
            }),
            None => r is None,
        },
{
    match owner {
        Some((pid, command)) => {
            let home: Option<String> = if contains(command.as_str(), "nebulad") {
                home
            } else {
                None
            };
            Some(Holder { pid, command, home })
        },
        None => None,
    }
}

/// The owner that `lsof -Fpc` lists: `p` lines give a process, `c` lines its
/// command. The first process with a command is the owner; one without counts
/// as unknown.
pub open spec fn lsof_owner(ls: Seq<Seq<char>>, pid: Option<nat>) -> Option<(nat, Seq<char>)>
    decreases ls.len(),
{
    if ls.len() == 0 {
        match pid {
            Some(p) => Some((p, "unknown"@)),
            None => None,
        }
    } else {
        let l = ls[0];
        let rest = l.skip(1);
        if l.len() > 0 && l[0] == 'p' {
            lsof_owner(ls.skip(1), crate::text::parse_dec(rest, u32::MAX as nat))
        } else if l.len() > 0 && l[0] == 'c' && pid is Some {
            Some((pid->0, rest))
        } else {
            lsof_owner(ls.skip(1), pid)
        }
    }
}

/// A line of `lsof -F` output: its field letter and what follows.
fn field_of(line: &str) -> (r: Option<(char, String)>)
    ensures
        match r {
            Some((c, rest)) => line@.len() > 0 && c == line@[0] && rest@ == line@.skip(1),
            None => line@.len() == 0,
        },
{
    let v: Vec<char> = to_chars(line);
    if v.len() == 0 {
        return None;
    }
    let rest: String = crate::text::from_chars(&v, 1, v.len());
    assert(rest@ =~= line@.skip(1));
    Some((v[0], rest))
}

/// Read the owner of a port from `lsof -Fpc`.
pub fn port_owner(text: &str) -> (r: Option<(u32, String)>)
    ensures
        match r {
            Some((pid, command)) => lsof_owner(crate::text::lines_of(text@), None) == Some(
                (pid as nat, command@),
            ),
            None => lsof_owner(crate::text::lines_of(text@), None) is None,
        },
{
    let ls: Vec<String> = lines(text);
    let ghost lv = crate::text::views(ls@);
    let mut pid: Option<u32> = None;
    let ghost mut pv: Option<nat> = None;
    let mut i: usize = 0;
    assert(lv.skip(0) =~= lv);
    while i < ls.len()
        invariant
            i <= ls@.len(),
            lv == crate::text::views(ls@),
            lv == crate::text::lines_of(text@),
            pv == (match pid {
                Some(p) => Some(p as nat),
                None => None::<nat>,
            }),
            lsof_owner(lv.skip(i as int), pv) == lsof_owner(lv, None),
        decreases ls@.len() - i,
    {
        proof {
            let cur = lv.skip(i as int);
            assert(cur[0] == ls@[i as int]@);
            assert(cur.skip(1) =~= lv.skip(i as int + 1));
        }
        match field_of(ls[i].as_str()) {
            Some((c, rest)) => {
                if c == 'p' {
                    pid = parse_u32(rest.as_str());
                    proof {
                        pv = crate::text::parse_dec(rest@, u32::MAX as nat);
                    }
                } else if c == 'c' {
                    match pid {
                        Some(p) => {
                            return Some((p, rest));
                        },
                        None => {},
                    }
                }
            },
            None => {},
        }
        i = i + 1;
    }
    match pid {
        Some(p) => Some((p, owned("unknown"))),
        None => None,
    }
}

/// The owner that a row of `netstat -ano` gives for a port: the local address
/// ends in it, and a TCP row is listening. UDP rows have no state.
pub open spec fn netstat_row(row: Seq<char>, port: u16, proto: Proto) -> Option<nat> {
    let f = crate::text::words_of(row);
    if f.len() < 2 || !crate::text::has_suffix(f[1], ":"@ + crate::text::decimal(port as nat)) {
        None
    } else if proto == Proto::Tcp && (f.len() < 4 || f[3] != "LISTENING"@) {
        None
    } else {
        crate::text::parse_dec(f.last(), u32::MAX as nat)
    }
}

pub open spec fn netstat_owner(rows: Seq<Seq<char>>, port: u16, proto: Proto) -> Option<nat>
    decreases rows.len(),
{
    if rows.len() == 0 {
        None
    } else {
        match netstat_row(rows[0], port, proto) {
            Some(p) => Some(p),
            None => netstat_owner(rows.skip(1), port, proto),
        }
    }
}

fn netstat_row_owner(row: &str, port: u16, proto: Proto) -> (r: Option<u32>)
    ensures
        match r {
            Some(p) => netstat_row(row@, port, proto) == Some(p as nat),
            None => netstat_row(row@, port, proto) is None,
        },
{
    let f: Vec<String> = words(row);
    let ghost fv = crate::text::views(f@);
    if f.len() < 2 {
        return None;
    }
    assert(fv[1] == f@[1]@);
    let needle: String = cat2(":", decimal_str(port as u64).as_str());
    if !ends_with(f[1].as_str(), needle.as_str()) {
        return None;
    }
    if proto == Proto::Tcp {
        if f.len() < 4 {
            return None;
        }
        assert(fv[3] == f@[3]@);
        if !same(f[3].as_str(), "LISTENING") {
            return None;
        }
    }
    assert(fv.last() == f@[f@.len() - 1]@);
    parse_u32(f[f.len() - 1].as_str())
}

/// Read the owner of a port from `netstat -ano`.
pub fn netstat_pid(text: &str, port: u16, proto: Proto) -> (r: Option<u32>)
    ensures
        match r {
            Some(p) => netstat_owner(crate::text::lines_of(text@), port, proto) == Some(p as nat),
            None => netstat_owner(crate::text::lines_of(text@), port, proto) is None,
        },
{
    let ls: Vec<String> = lines(text);
    let ghost lv = crate::text::views(ls@);
    let mut i: usize = 0;
    assert(lv.skip(0) =~= lv);
    while i < ls.len()
        invariant
            i <= ls@.len(),
            lv == crate::text::views(ls@),
            lv == crate::text::lines_of(text@),
            netstat_owner(lv.skip(i as int), port, proto) == netstat_owner(lv, port, proto),
        decreases ls@.len() - i,
    {
        proof {
            let cur = lv.skip(i as int);
            assert(cur[0] == ls@[i as int]@);
            assert(cur.skip(1) =~= lv.skip(i as int + 1));
        }
        match netstat_row_owner(ls[i].as_str(), port, proto) {
            Some(p) => {
                return Some(p);
            },
            None => {},
        }
        i = i + 1;
    }
    None
}

/// The name that `tasklist /FO CSV` gives: what stands in the first quotes.
pub fn task_name(text: &str) -> (s: String)
    ensures
        ({
            let parts = crate::text::split_on(text@, '"');
            s@ == (if parts.len() > 1 {
                parts[1]
            } else {
                "unknown"@
            })
        }),
{
    let parts: Vec<String> = split_char(text, '"');
    let ghost pv = crate::text::views(parts@);
    if parts.len() > 1 {
        assert(pv[1] == parts@[1]@);
        owned(parts[1].as_str())
    } else {
        owned("unknown")
    }
}

/// The home that an open file gives: every instance holds its control socket.
pub open spec fn home_of_file(path: Seq<char>) -> Option<Seq<char>> {
    crate::text::before_suffix(path, "/run/nebulad.sock"@)
}

pub open spec fn lsof_home(ls: Seq<Seq<char>>) -> Option<Seq<char>>
    decreases ls.len(),
{
    if ls.len() == 0 {
        None
    } else if ls[0].len() > 0 && ls[0][0] == 'n' && home_of_file(ls[0].skip(1)) is Some {
        home_of_file(ls[0].skip(1))
    } else {
        lsof_home(ls.skip(1))
    }
}

/// Which home a running daemon belongs to, read off its open files.
pub fn nebula_home_of(text: &str) -> (r: Option<String>)
    ensures
        crate::text::opt_view(r) == lsof_home(crate::text::lines_of(text@)),
{
    let ls: Vec<String> = lines(text);
    let ghost lv = crate::text::views(ls@);
    let mut i: usize = 0;
    assert(lv.skip(0) =~= lv);
    while i < ls.len()
        invariant
            i <= ls@.len(),
            lv == crate::text::views(ls@),
            lv == crate::text::lines_of(text@),
            lsof_home(lv.skip(i as int)) == lsof_home(lv),
        decreases ls@.len() - i,
    {
        proof {
            let cur = lv.skip(i as int);
            assert(cur[0] == ls@[i as int]@);
            assert(cur.skip(1) =~= lv.skip(i as int + 1));
        }
        match field_of(ls[i].as_str()) {
            Some((c, rest)) => {
                if c == 'n' {
                    match strip_suffix(rest.as_str(), "/run/nebulad.sock") {
                        Some(home) => {
                            return Some(home);
                        },
                        None => {},
                    }
                }
            },
            None => {},
        }
        i = i + 1;
    }
    None
}

/// The homes of the other instances that `lsof -Fpn` lists, each path once: the
/// process that the last `p` line gave, and the homes so far.
pub open spec fn peers_so_far(ls: Seq<Seq<char>>, me: u32) -> (Option<nat>, Seq<Seq<char>>)
    decreases ls.len(),
{
    if ls.len() == 0 {
        (None, Seq::empty())
    } else {
        let (pid, homes) = peers_so_far(ls.drop_last(), me);
        let l = ls.last();
        let rest = l.skip(1);
        if l.len() > 0 && l[0] == 'p' {
            (crate::text::parse_dec(rest, u32::MAX as nat), homes)
        } else if l.len() > 0 && l[0] == 'n' && pid != Some(me as nat) && home_of_file(
            rest,
        ) is Some && !crate::paths::lists_path(homes, home_of_file(rest)->0) {
            (pid, homes.push(home_of_file(rest)->0))
        } else {
            (pid, homes)
        }
    }
}

/// Read the homes of the other instances.
pub fn peer_homes(text: &str, me: u32) -> (homes: Vec<String>)
    ensures
        crate::text::views(homes@) == peers_so_far(crate::text::lines_of(text@), me).1,
{
    let ls: Vec<String> = lines(text);
    let ghost lv = crate::text::views(ls@);
    let mut pid: Option<u32> = None;
    let mut homes: Vec<String> = Vec::new();
    let mut i: usize = 0;
    assert(lv.take(0) =~= Seq::empty());
    assert(crate::text::views(homes@) =~= Seq::empty());
    while i < ls.len()
        invariant
            i <= ls@.len(),
            lv == crate::text::views(ls@),
            lv == crate::text::lines_of(text@),
            peers_so_far(lv.take(i as int), me) == (
                match pid {
                    Some(p) => Some(p as nat),
                    None => None::<nat>,
                },
                crate::text::views(homes@),
            ),
        decreases ls@.len() - i,
    {
        let ghost now = crate::text::views(homes@);
        proof {
            let longer = lv.take(i as int + 1);
            assert(longer.drop_last() =~= lv.take(i as int));
            assert(longer.last() == ls@[i as int]@);
        }
        match field_of(ls[i].as_str()) {
            Some((c, rest)) => {
                if c == 'p' {
                    pid = parse_u32(rest.as_str());
                } else if c == 'n' {
                    let mine: bool = match pid {
                        Some(p) => p == me,
                        None => false,
                    };
                    if !mine {
                        match strip_suffix(rest.as_str(), "/run/nebulad.sock") {
                            Some(home) => {
                                if !crate::paths::has_path(&homes, home.as_str()) {
                                    let ghost hv = home@;
                                    homes.push(home);
                                    assert(crate::text::views(homes@) =~= now.push(hv));
                                }
                            },
                            None => {},
                        }
                    }
                }
            },
            None => {},
        }
        i = i + 1;
    }
    assert(lv.take(ls@.len() as int) =~= lv);
    homes
}

/// Whether a peer shares the instance's zone: container names then resolve
/// ambiguously.
pub fn shares_dns_zone(plan: &PortPlan, peer_zone: &Option<String>) -> (r: bool)
    ensures
        r == (plan@.dns_zone == (match *peer_zone {
            Some(z) => z@,
            None => "nebula.local"@,
        })),
{
    match peer_zone {
        Some(z) => same(plan.dns_zone.as_str(), z.as_str()),
        None => same(plan.dns_zone.as_str(), "nebula.local"),
    }
}

/// The warning about a peer in the same zone.
pub fn warn_shared_dns_zone(plan: &PortPlan, peer_zone: &Option<String>, peer_home: &str) -> (r:
    Option<String>)
    ensures
        crate::text::opt_view(r) == (if plan@.dns_zone == (match *peer_zone {
            Some(z) => z@,
            None => "nebula.local"@,
        }) {
            Some(
                "another instance uses the same dns_zone — container names resolve ambiguously; give one of them its own dns_zone (zone "@
                    + plan@.dns_zone + ", peer "@ + peer_home@ + ")"@,
            )
        } else {
            None
        }),
{
    if shares_dns_zone(plan, peer_zone) {
        Some(
            crate::text::cat5(
                "another instance uses the same dns_zone — container names resolve ambiguously; give one of them its own dns_zone (zone ",
                plan.dns_zone.as_str(),
                ", peer ",
                peer_home,
                ")",
            ),
        )
    } else {
        None
    }
}

// --- the preflight ------------------------------------------------------------------

/// What came of binding a port.
#[derive(Debug)]
pub enum Probed {
    /// It can be bound.
    Free,
    /// It is taken: by whom, as far as is known, and which ports above it can
    /// be bound.
    InUse { holder: Option<Holder>, free: Vec<u16> },
    /// It cannot be bound for another reason.
    Failed(String),
}

/// The first port from `p` up to `hi` that is free.
pub open spec fn free_from(p: int, hi: int, free: Seq<u16>) -> Option<u16>
    decreases hi - p + 1,
{
    if p > hi {
        None
    } else if free.contains(p as u16) {
        Some(p as u16)
    } else {
        free_from(p + 1, hi, free)
    }
}

pub open spec fn at_most_u16(n: int) -> int {
    if n > 65535 {
        65535
    } else {
        n
    }
}

/// The next free port at or above a port, within two hundred; never one below.
pub open spec fn near(port: u16, free: Seq<u16>) -> Option<u16> {
    free_from(port as int, at_most_u16(port + 200), free)
}

fn is_free(free: &Vec<u16>, p: u16) -> (r: bool)
    ensures
        r == free@.contains(p),
{
    let mut i: usize = 0;
    while i < free.len()
        invariant
            i <= free@.len(),
            forall|j: int| 0 <= j < i ==> free@[j] != p,
        decreases free@.len() - i,
    {
        if free[i] == p {
            assert(free@[i as int] == p);
            return true;
        }
        i = i + 1;
    }
    false
}

pub fn free_near(port: u16, free: &Vec<u16>) -> (r: Option<u16>)
    ensures
        r == near(port, free@),
{
    let lo: u32 = port as u32;
    let hi: u32 = if port as u32 + 200 > 65535 { 65535 } else { port as u32 + 200 };
    let mut p: u32 = lo;
    while p <= hi
        invariant
            lo <= p,
            hi <= 65535,
            p <= 65536,
            near(port, free@) == free_from(lo as int, hi as int, free@),
            free_from(p as int, hi as int, free@) == free_from(lo as int, hi as int, free@),
        decreases hi + 1 - p,
    {
        if is_free(free, p as u16) {
            return Some(p as u16);
        }
        p = p + 1;
    }
    None
}

/// For a port that is taken a free one is found above it, within two hundred.
pub proof fn auto_moves_up(port: u16, free: Seq<u16>)
    requires
        near(port, free) is Some,
        !free.contains(port),
    ensures
        port < near(port, free)->0 <= port + 200,
        free.contains(near(port, free)->0),
{
    lemma_free_from(port as int, at_most_u16(port + 200), free);
}

proof fn lemma_free_from(p: int, hi: int, free: Seq<u16>)
    requires
        0 <= p,
        hi <= 65535,
    ensures
        match free_from(p, hi, free) {
            Some(q) => p <= q <= hi && free.contains(q),
            None => true,
        },
    decreases hi - p + 1,
{
    if p <= hi && !free.contains(p as u16) {
        lemma_free_from(p + 1, hi, free);
    }
}

pub open spec fn quotable(c: char) -> bool {
    ('a' <= c <= 'z') || ('A' <= c <= 'Z') || ('0' <= c <= '9') || c == '-' || c == '_' || c == '.'
        || c == '/' || c == ':'
}

/// A word as a shell reads it back: as it stands where every character is
/// harmless, in single quotes otherwise.
pub open spec fn quoted(s: Seq<char>) -> Seq<char> {
    if forall|i: int| 0 <= i < s.len() ==> quotable(#[trigger] s[i]) {
        s
    } else {
        "'"@ + crate::text::replaced(s, '\'', "'\\''"@) + "'"@
    }
}

pub fn shell_quote(s: &str) -> (r: String)
    ensures
        r@ == quoted(s@),
{
    let v: Vec<char> = to_chars(s);
    let mut i: usize = 0;
    while i < v.len()
        invariant
            v@ == s@,
            i <= v@.len(),
            forall|j: int| 0 <= j < i ==> quotable(#[trigger] v@[j]),
        decreases v@.len() - i,
    {
        let c: char = v[i];
        let fine: bool = ('a' <= c && c <= 'z') || ('A' <= c && c <= 'Z') || ('0' <= c && c <= '9')
            || c == '-' || c == '_' || c == '.' || c == '/' || c == ':';
        if !fine {
            assert(!quotable(s@[i as int]));
            return cat3("'", replace_char(s, '\'', "'\\''").as_str(), "'");
        }
        i = i + 1;
    }
    owned(s)
}

/// Whether a probe is a conflict that no free port settles.
pub open spec fn conflicts(c: CheckView, p: Probed, policy: ConflictPolicy) -> bool {
    match p {
        Probed::InUse { holder, free } => policy == ConflictPolicy::Fail || near(
            c.port,
            free@,
        ) is None,
        _ => false,
    }
}

/// The plan with a port moved.
pub open spec fn moved(plan: PlanView, setting: Setting, port: u16) -> PlanView {
    match setting {
        Setting::Api => PlanView { api_port: port, ..plan },
        Setting::Dns => PlanView { dns_port: port, ..plan },
        Setting::K8s => PlanView { k8s_port: port, ..plan },
    }
}

/// The plan with a free port for each that is taken, as far as the policy
/// allows it and there is one.
pub open spec fn settled(
    plan: PlanView,
    checks: Seq<CheckView>,
    probes: Seq<Probed>,
    policy: ConflictPolicy,
) -> PlanView
    decreases checks.len(),
{
    if checks.len() == 0 {
        plan
    } else {
        let before = settled(plan, checks.drop_last(), probes, policy);
        match probes[checks.len() - 1] {
            Probed::InUse { holder, free } => match (policy, near(checks.last().port, free@)) {
                (ConflictPolicy::Auto, Some(p)) => moved(before, checks.last().setting, p),
                _ => before,
            },
            _ => before,
        }
    }
}

/// The first port that cannot be bound at all.
pub open spec fn first_failure(
    checks: Seq<CheckView>,
    probes: Seq<Probed>,
) -> Option<Seq<char>>
    decreases checks.len(),
{
    if checks.len() == 0 {
        None
    } else {
        match first_failure(checks.drop_last(), probes) {
            Some(t) => Some(t),
            None => match probes[checks.len() - 1] {
                Probed::Failed(e) => {
                    let c = checks.last();
                    Some(
                        "cannot bind "@ + c.proto.text() + " "@ + c.host + ":"@
                            + crate::text::decimal(c.port as nat) + " ("@ + c.setting.text()
                            + "): "@ + e@,
                    )
                },
                _ => None,
            },
        }
    }
}

/// The line that names a conflict.
pub open spec fn conflict_line(c: CheckView, holder: Option<Holder>) -> Seq<char> {
    c.proto.text() + " "@ + crate::text::decimal(c.port as nat) + " ("@ + c.setting.text()
        + ") is already in use"@ + (match holder {
        Some(h) => " by "@ + h@.text() + "\n"@,
        None => " by another process\n"@,
    })
}

pub open spec fn conflict_lines(
    checks: Seq<CheckView>,
    probes: Seq<Probed>,
    policy: ConflictPolicy,
) -> Seq<char>
    decreases checks.len(),
{
    if checks.len() == 0 {
        Seq::empty()
    } else {
        let n = checks.len() - 1;
        let before = conflict_lines(checks.drop_last(), probes, policy);
        if conflicts(checks.last(), probes[n], policy) {
            before + conflict_line(checks.last(), probes[n]->holder)
        } else {
            before
        }
    }
}

/// The line of a configuration that gives a port.
pub open spec fn suggestion(c: CheckView, free: Seq<u16>) -> Seq<char> {
    "        "@ + c.setting.text() + (match near(c.port, free) {
        Some(p) => " = "@ + crate::text::decimal(p as nat) + "\n"@,
        None => " = <a free port>\n"@,
    })
}

pub open spec fn suggestions(
    checks: Seq<CheckView>,
    probes: Seq<Probed>,
    policy: ConflictPolicy,
) -> Seq<char>
    decreases checks.len(),
{
    if checks.len() == 0 {
        Seq::empty()
    } else {
        let n = checks.len() - 1;
        let before = suggestions(checks.drop_last(), probes, policy);
        if conflicts(checks.last(), probes[n], policy) {
            before + suggestion(checks.last(), probes[n]->free@)
        } else {
            before
        }
    }
}

/// The home of the first holder that has one.
pub open spec fn peer_home(
    checks: Seq<CheckView>,
    probes: Seq<Probed>,
    policy: ConflictPolicy,
) -> Option<Seq<char>>
    decreases checks.len(),
{
    if checks.len() == 0 {
        None
    } else {
        let n = checks.len() - 1;
        match peer_home(checks.drop_last(), probes, policy) {
            Some(h) => Some(h),
            None => if conflicts(checks.last(), probes[n], policy) {
                match probes[n]->holder {
                    Some(h) => h@.home,
                    None => None,
                }
            } else {
                None
            },
        }
    }
}

pub open spec fn any_conflict(
    checks: Seq<CheckView>,
    probes: Seq<Probed>,
    policy: ConflictPolicy,
) -> bool {
    exists|i: int| 0 <= i < checks.len() && conflicts(#[trigger] checks[i], probes[i], policy)
}

/// What a refused start says: the conflicts, and the ways out of them.
pub open spec fn conflict_text(
    plan: PlanView,
    checks: Seq<CheckView>,
    probes: Seq<Probed>,
    policy: ConflictPolicy,
) -> Seq<char> {
    conflict_lines(checks, probes, policy)
        + "\nTwo Nebula instances cannot share a port. Either:\n"@ + (match peer_home(
        checks,
        probes,
        policy,
    ) {
        Some(h) => "  - stop the instance holding them:  NEBULA_HOME="@ + quoted(h)
            + " nebula down\n"@,
        None => "  - stop whatever holds those ports\n"@,
    }) + "  - or give this instance its own ports in config.toml:\n"@ + suggestions(
        checks,
        probes,
        policy,
    ) + (if plan.dns_zone == "nebula.local"@ {
        "        dns_zone = \"my-instance.local\"\n"@
    } else {
        ""@
    }) + "  - or set port_conflict = \"auto\" to bind free ports at startup\n"@
}

/// What the preflight comes to: the plan, with free ports for taken ones where
/// the policy says so; or what stands in the way.
pub open spec fn preflight_of(
    plan: PlanView,
    policy: ConflictPolicy,
    probes: Seq<Probed>,
) -> Result<PlanView, Seq<char>> {
    let checks = checks_of(plan);
    match first_failure(checks, probes) {
        Some(t) => Err(t),
        None => if any_conflict(checks, probes, policy) {
            Err(conflict_text(plan, checks, probes, policy))
        } else {
            Ok(settled(plan, checks, probes, policy))
        },
    }
}

fn copy_plan(p: &PortPlan) -> (r: PortPlan)
    ensures
        r@ == p@,
{
    PortPlan {
        api_host: owned(p.api_host.as_str()),
        api_port: p.api_port,
        dns_port: p.dns_port,
        k8s_port: p.k8s_port,
        dns_zone: owned(p.dns_zone.as_str()),
    }
}

fn find_failure(checks: &Vec<PortCheck>, probes: &Vec<Probed>) -> (r: Option<String>)
    requires
        probes@.len() == checks@.len(),
    ensures
        crate::text::opt_view(r) == first_failure(check_views(checks@), probes@),
{
    let ghost cv = check_views(checks@);
    let mut i: usize = 0;
    assert(cv.take(0) =~= Seq::empty());
    while i < checks.len()
        invariant
            i <= checks@.len(),
            probes@.len() == checks@.len(),
            cv == check_views(checks@),
            first_failure(cv.take(i as int), probes@) is None,
        decreases checks@.len() - i,
    {
        proof {
            let longer = cv.take(i as int + 1);
            assert(longer.drop_last() =~= cv.take(i as int));
            assert(longer.last() == checks@[i as int]@);
        }
        match &probes[i] {
            Probed::Failed(e) => {
                let c: &PortCheck = &checks[i];
                let mut t: String = cat5(
                    "cannot bind ",
                    c.proto.as_str(),
                    " ",
                    c.host.as_str(),
                    ":",
                );
                t.append(decimal_str(c.port as u64).as_str());
                t.append(" (");
                t.append(c.setting.name());
                t.append("): ");
                t.append(e.as_str());
                proof {
                    lemma_first_failure(cv, probes@, i as int + 1);
                }
                return Some(t);
            },
            _ => {},
        }
        i = i + 1;
    }
    assert(cv.take(checks@.len() as int) =~= cv);
    None
}

proof fn lemma_first_failure(checks: Seq<CheckView>, probes: Seq<Probed>, n: int)
    requires
        0 <= n <= checks.len(),
        first_failure(checks.take(n), probes) is Some,
    ensures
        first_failure(checks, probes) == first_failure(checks.take(n), probes),
    decreases checks.len(),
{
    if n == checks.len() {
        assert(checks.take(n) =~= checks);
    } else {
        assert(checks.drop_last().take(n) =~= checks.take(n));
        lemma_first_failure(checks.drop_last(), probes, n);
    }
}

fn is_conflict(c: &PortCheck, p: &Probed, policy: ConflictPolicy) -> (r: bool)
    ensures
        r == conflicts(c@, *p, policy),
{
    match p {
        Probed::InUse { holder: _, free } => policy == ConflictPolicy::Fail || free_near(
            c.port,
            free,
        ).is_none(),
        _ => false,
    }
}

fn push_conflict_lines(
    out: &mut String,
    checks: &Vec<PortCheck>,
    probes: &Vec<Probed>,
    policy: ConflictPolicy,
)
    requires
        probes@.len() == checks@.len(),
    ensures
        final(out)@ == old(out)@ + conflict_lines(check_views(checks@), probes@, policy),
{
    let ghost cv = check_views(checks@);
    let ghost start = out@;
    let mut i: usize = 0;
    assert(cv.take(0) =~= Seq::empty());
    assert(start + Seq::<char>::empty() =~= start);
    while i < checks.len()
        invariant
            i <= checks@.len(),
            probes@.len() == checks@.len(),
            cv == check_views(checks@),
            out@ == start + conflict_lines(cv.take(i as int), probes@, policy),
        decreases checks@.len() - i,
    {
        let ghost before = conflict_lines(cv.take(i as int), probes@, policy);
        proof {
            let longer = cv.take(i as int + 1);
            assert(longer.drop_last() =~= cv.take(i as int));
            assert(longer.last() == checks@[i as int]@);
        }
        let c: &PortCheck = &checks[i];
        if is_conflict(c, &probes[i], policy) {
            let mut t: String = cat5(
                c.proto.as_str(),
                " ",
                decimal_str(c.port as u64).as_str(),
                " (",
                c.setting.name(),
            );
            t.append(") is already in use");
            let tail: String = match &probes[i] {
                Probed::InUse { holder: Some(h), free: _ } => cat3(
                    " by ",
                    h.describe().as_str(),
                    "\n",
                ),
                _ => owned(" by another process\n"),
            };
            t.append(tail.as_str());
            assert(t@ =~= conflict_line(c@, probes@[i as int]->holder));
            out.append(t.as_str());
            assert(start + (before + t@) =~= (start + before) + t@);
        }
        i = i + 1;
    }
    assert(cv.take(checks@.len() as int) =~= cv);
}

fn push_suggestions(
    out: &mut String,
    checks: &Vec<PortCheck>,
    probes: &Vec<Probed>,
    policy: ConflictPolicy,
)
    requires
        probes@.len() == checks@.len(),
    ensures
        final(out)@ == old(out)@ + suggestions(check_views(checks@), probes@, policy),
{
    let ghost cv = check_views(checks@);
    let ghost start = out@;
    let mut i: usize = 0;
    assert(cv.take(0) =~= Seq::empty());
    assert(start + Seq::<char>::empty() =~= start);
    while i < checks.len()
        invariant
            i <= checks@.len(),
            probes@.len() == checks@.len(),
            cv == check_views(checks@),
            out@ == start + suggestions(cv.take(i as int), probes@, policy),
        decreases checks@.len() - i,
    {
        let ghost before = suggestions(cv.take(i as int), probes@, policy);
        proof {
            let longer = cv.take(i as int + 1);
            assert(longer.drop_last() =~= cv.take(i as int));
            assert(longer.last() == checks@[i as int]@);
        }
        let c: &PortCheck = &checks[i];
        if is_conflict(c, &probes[i], policy) {
            match &probes[i] {
                Probed::InUse { holder: _, free } => {
                    let tail: String = match free_near(c.port, free) {
                        Some(p) => cat3(" = ", decimal_str(p as u64).as_str(), "\n"),
                        None => owned(" = <a free port>\n"),
                    };
                    let t: String = cat3("        ", c.setting.name(), tail.as_str());
                    assert(t@ =~= suggestion(c@, free@));
                    out.append(t.as_str());
                    assert(start + (before + t@) =~= (start + before) + t@);
                },
                _ => {},
            }
        }
        i = i + 1;
    }
    assert(cv.take(checks@.len() as int) =~= cv);
}

fn find_peer_home(
    checks: &Vec<PortCheck>,
    probes: &Vec<Probed>,
    policy: ConflictPolicy,
) -> (r: Option<String>)
    requires
        probes@.len() == checks@.len(),
    ensures
        crate::text::opt_view(r) == peer_home(check_views(checks@), probes@, policy),
{
    let ghost cv = check_views(checks@);
    let mut found: Option<String> = None;
    let mut i: usize = 0;
    assert(cv.take(0) =~= Seq::empty());
    while i < checks.len()
        invariant
            i <= checks@.len(),
            probes@.len() == checks@.len(),
            cv == check_views(checks@),
            crate::text::opt_view(found) == peer_home(cv.take(i as int), probes@, policy),
        decreases checks@.len() - i,
    {
        proof {
            let longer = cv.take(i as int + 1);
            assert(longer.drop_last() =~= cv.take(i as int));
            assert(longer.last() == checks@[i as int]@);
        }
        if found.is_none() && is_conflict(&checks[i], &probes[i], policy) {
            match &probes[i] {
                Probed::InUse { holder: Some(h), free: _ } => {
                    found = opt_owned(&h.home);
                },
                _ => {},
            }
        }
        i = i + 1;
    }
    assert(cv.take(checks@.len() as int) =~= cv);
    found
}

fn has_conflict(checks: &Vec<PortCheck>, probes: &Vec<Probed>, policy: ConflictPolicy) -> (r: bool)
    requires
        probes@.len() == checks@.len(),
    ensures
        r == any_conflict(check_views(checks@), probes@, policy),
{
    let ghost cv = check_views(checks@);
    let mut i: usize = 0;
    while i < checks.len()
        invariant
            i <= checks@.len(),
            probes@.len() == checks@.len(),
            cv == check_views(checks@),
            forall|j: int| 0 <= j < i ==> !conflicts(#[trigger] cv[j], probes@[j], policy),
        decreases checks@.len() - i,
    {
        assert(cv[i as int] == checks@[i as int]@);
        if is_conflict(&checks[i], &probes[i], policy) {
            assert(conflicts(cv[i as int], probes@[i as int], policy));
            return true;
        }
        i = i + 1;
    }
    false
}

fn settle(
    plan: &PortPlan,
    checks: &Vec<PortCheck>,
    probes: &Vec<Probed>,
    policy: ConflictPolicy,
) -> (out: PortPlan)
    requires
        probes@.len() == checks@.len(),
    ensures
        out@ == settled(plan@, check_views(checks@), probes@, policy),
{
    let ghost cv = check_views(checks@);
    let mut out: PortPlan = copy_plan(plan);
    let mut i: usize = 0;
    assert(cv.take(0) =~= Seq::empty());
    while i < checks.len()
        invariant
            i <= checks@.len(),
            probes@.len() == checks@.len(),
            cv == check_views(checks@),
            out@ == settled(plan@, cv.take(i as int), probes@, policy),
        decreases checks@.len() - i,
    {
        proof {
            let longer = cv.take(i as int + 1);
            assert(longer.drop_last() =~= cv.take(i as int));
            assert(longer.last() == checks@[i as int]@);
        }
        match &probes[i] {
            Probed::InUse { holder: _, free } => {
                if policy == ConflictPolicy::Auto {
                    match free_near(checks[i].port, free) {
                        Some(p) => match checks[i].setting {
                            Setting::Api => {
                                out.api_port = p;
                            },
                            Setting::Dns => {
                                out.dns_port = p;
                            },
                            Setting::K8s => {
                                out.k8s_port = p;
                            },
                        },
                        None => {},
                    }
                }
            },
            _ => {},
        }
        i = i + 1;
    }
    assert(cv.take(checks@.len() as int) =~= cv);
    out
}

fn conflict_message(
    plan: &PortPlan,
    checks: &Vec<PortCheck>,
    probes: &Vec<Probed>,
    policy: ConflictPolicy,
) -> (m: String)
    requires
        probes@.len() == checks@.len(),
    ensures
        m@ == conflict_text(plan@, check_views(checks@), probes@, policy),
{
    let ghost cv = check_views(checks@);
    let mut m: String = String::new();
    push_conflict_lines(&mut m, checks, probes, policy);
    assert(m@ =~= conflict_lines(cv, probes@, policy));
    m.append("\nTwo Nebula instances cannot share a port. Either:\n");
    let stop: String = match find_peer_home(checks, probes, policy) {
        Some(h) => cat3(
            "  - stop the instance holding them:  NEBULA_HOME=",
            shell_quote(h.as_str()).as_str(),
            " nebula down\n",
        ),
        None => owned("  - stop whatever holds those ports\n"),
    };
    m.append(stop.as_str());
    m.append("  - or give this instance its own ports in config.toml:\n");
    push_suggestions(&mut m, checks, probes, policy);
    let zone: &str = if same(plan.dns_zone.as_str(), "nebula.local") {
        "        dns_zone = \"my-instance.local\"\n"
    } else {
        ""
    };
    m.append(zone);
    m.append("  - or set port_conflict = \"auto\" to bind free ports at startup\n");
    m
}

/// Check every fixed port: return the plan unchanged, one with free ports in
/// place of taken ones, or what stands in the way. The probes are those of the
/// plan's checks, in their order.
pub fn preflight(plan: &PortPlan, policy: ConflictPolicy, probes: &Vec<Probed>) -> (r: Result<
    PortPlan,
    String,
>)
    requires
        probes@.len() == checks_of(plan@).len(),
    ensures
        match r {
            Ok(p) => preflight_of(plan@, policy, probes@) == Ok::<PlanView, Seq<char>>(p@),
            Err(e) => preflight_of(plan@, policy, probes@) == Err::<PlanView, Seq<char>>(e@),
        },
{
    let checks: Vec<PortCheck> = plan.checks();
    assert(check_views(checks@).len() == checks@.len());
    match find_failure(&checks, probes) {
        Some(t) => {
            return Err(t);
        },
        None => {},
    }
    if has_conflict(&checks, probes, policy) {
        return Err(conflict_message(plan, &checks, probes, policy));
    }
    Ok(settle(plan, &checks, probes, policy))
}

/// Where every port is free the plan stands as it is.
pub proof fn free_ports_pass(plan: PlanView, policy: ConflictPolicy, probes: Seq<Probed>)
    requires
        probes.len() == checks_of(plan).len(),
        forall|i: int| 0 <= i < probes.len() ==> #[trigger] probes[i] == Probed::Free,
    ensures
        preflight_of(plan, policy, probes) == Ok::<PlanView, Seq<char>>(plan),
{
    lemma_all_free(plan, checks_of(plan), policy, probes);
}

proof fn lemma_all_free(
    plan: PlanView,
    checks: Seq<CheckView>,
    policy: ConflictPolicy,
    probes: Seq<Probed>,
)
    requires
        checks.len() <= probes.len(),
        forall|i: int| 0 <= i < probes.len() ==> #[trigger] probes[i] == Probed::Free,
    ensures
        first_failure(checks, probes) is None,
        !any_conflict(checks, probes, policy),
        settled(plan, checks, probes, policy) == plan,
    decreases checks.len(),
{
    if checks.len() > 0 {
        lemma_all_free(plan, checks.drop_last(), policy, probes);
        assert(probes[checks.len() - 1] == Probed::Free);
    }
}

/// Under the default policy an accepted plan is the configured one: no port is
/// moved silently.
pub proof fn fail_policy_moves_nothing(plan: PlanView, probes: Seq<Probed>)
    ensures
        match preflight_of(plan, ConflictPolicy::Fail, probes) {
            Ok(p) => p == plan,
            Err(_) => true,
        },
{
    lemma_fail_settles(plan, checks_of(plan), probes);
}

proof fn lemma_fail_settles(plan: PlanView, checks: Seq<CheckView>, probes: Seq<Probed>)
    ensures
        settled(plan, checks, probes, ConflictPolicy::Fail) == plan,
    decreases checks.len(),
{
    if checks.len() > 0 {
        lemma_fail_settles(plan, checks.drop_last(), probes);
    }
}

// --- the live bind report -----------------------------------------------------------

/// A listener that the daemon owns, or should.
#[derive(Debug)]
pub struct PortBinding {
    pub service: String,
    pub addr: String,
    pub ok: bool,
    pub error: Option<String>,
}

pub struct BindingView {
    pub service: Seq<char>,
    pub addr: Seq<char>,
    pub ok: bool,
    pub error: Option<Seq<char>>,
}

impl View for PortBinding {
    type V = BindingView;

    open spec fn view(&self) -> BindingView {
        BindingView {
            service: self.service@,
            addr: self.addr@,
            ok: self.ok,
            error: crate::text::opt_view(self.error),
        }
    }
}

/// Every listener, in the order of the services' names.
#[derive(Debug)]
pub struct BindReport {
    pub entries: Vec<PortBinding>,
}

pub open spec fn binding_views(v: Seq<PortBinding>) -> Seq<BindingView> {
    v.map_values(|b: PortBinding| b@)
}

impl View for BindReport {
    type V = Seq<BindingView>;

    open spec fn view(&self) -> Seq<BindingView> {
        binding_views(self.entries@)
    }
}

/// The report with an entry: in place of the service's own, or where its name
/// belongs.
pub open spec fn with_binding(s: Seq<BindingView>, b: BindingView) -> Seq<BindingView>
    decreases s.len(),
{
    if s.len() == 0 {
        seq![b]
    } else if s[0].service == b.service {
        seq![b] + s.skip(1)
    } else if lex_le(b.service, s[0].service) {
        seq![b] + s
    } else {
        seq![s[0]] + with_binding(s.skip(1), b)
    }
}

/// The entry of a service.
pub open spec fn entry_of(s: Seq<BindingView>, service: Seq<char>) -> Option<BindingView>
    decreases s.len(),
{
    if s.len() == 0 {
        None
    } else if s[0].service == service {
        Some(s[0])
    } else {
        entry_of(s.skip(1), service)
    }
}

/// The report without a service.
pub open spec fn without_binding(s: Seq<BindingView>, service: Seq<char>) -> Seq<BindingView>
    decreases s.len(),
{
    if s.len() == 0 {
        s
    } else if s[0].service == service {
        s.skip(1)
    } else {
        seq![s[0]] + without_binding(s.skip(1), service)
    }
}

/// How many entries of a report fail.
pub open spec fn failures(s: Seq<BindingView>) -> nat
    decreases s.len(),
{
    if s.len() == 0 {
        0
    } else {
        failures(s.drop_last()) + (if s.last().ok {
            0nat
        } else {
            1nat
        })
    }
}

impl BindReport {
    pub fn new() -> (r: BindReport)
        ensures
            r@.len() == 0,
    {
        BindReport { entries: Vec::new() }
    }
}

/// Record what came of a bind.
pub fn set_bind(report: &mut BindReport, service: &str, addr: &str, error: Option<String>)
    ensures
        final(report)@ == with_binding(
            old(report)@,
            BindingView {
                service: service@,
                addr: addr@,
                ok: error is None,
                error: crate::text::opt_view(error),
            },
        ),
{
    let ghost sv = report@;
    let ok: bool = error.is_none();
    let b = PortBinding { service: owned(service), addr: owned(addr), ok, error };
    let ghost bv = b@;
    let name: Vec<char> = to_chars(service);
    let mut i: usize = 0;
    assert(sv.skip(0) =~= sv);
    assert(sv.take(0) + with_binding(sv.skip(0), bv) =~= with_binding(sv, bv));
    while i < report.entries.len() && !same(report.entries[i].service.as_str(), service)
        && !text_le(&name, &to_chars(report.entries[i].service.as_str()))
        invariant
            i <= report.entries@.len(),
            report.entries@ == old(report).entries@,
            sv == report@,
            name@ == service@,
            bv.service == service@,
            sv.take(i as int) + with_binding(sv.skip(i as int), bv) == with_binding(sv, bv),
        decreases report.entries@.len() - i,
    {
        proof {
            let rest = sv.skip(i as int);
            assert(rest[0] == report.entries@[i as int]@);
            assert(rest.skip(1) =~= sv.skip(i as int + 1));
            assert(sv.take(i as int) + (seq![rest[0]] + with_binding(rest.skip(1), bv)) =~= sv.take(
                i as int + 1,
            ) + with_binding(rest.skip(1), bv));
        }
        i = i + 1;
    }
    let ghost rest = sv.skip(i as int);
    if i < report.entries.len() && same(report.entries[i].service.as_str(), service) {
        proof {
            assert(rest[0] == report.entries@[i as int]@);
        }
        report.entries.set(i, b);
        assert(report@ =~= sv.take(i as int) + (seq![bv] + rest.skip(1)));
    } else {
        proof {
            if i < report.entries@.len() {
                assert(rest[0] == report.entries@[i as int]@);
                assert(with_binding(rest, bv) == seq![bv] + rest);
            } else {
                assert(rest =~= Seq::empty());
                assert(with_binding(rest, bv) =~= seq![bv] + rest);
            }
        }
        report.entries.insert(i, b);
        assert(report@ =~= sv.take(i as int) + (seq![bv] + rest));
    }
}

/// Forget a service.
pub fn clear_bind(report: &mut BindReport, service: &str)
    ensures
        final(report)@ == without_binding(old(report)@, service@),
{
    let ghost sv = report@;
    let mut i: usize = 0;
    assert(sv.skip(0) =~= sv);
    assert(sv.take(0) + without_binding(sv.skip(0), service@) =~= without_binding(sv, service@));
    while i < report.entries.len() && !same(report.entries[i].service.as_str(), service)
        invariant
            i <= report.entries@.len(),
            report.entries@ == old(report).entries@,
            sv == report@,
            sv.take(i as int) + without_binding(sv.skip(i as int), service@) == without_binding(
                sv,
                service@,
            ),
        decreases report.entries@.len() - i,
    {
        proof {
            let rest = sv.skip(i as int);
            assert(rest[0] == report.entries@[i as int]@);
            assert(rest.skip(1) =~= sv.skip(i as int + 1));
            assert(sv.take(i as int) + (seq![rest[0]] + without_binding(rest.skip(1), service@))
                =~= sv.take(i as int + 1) + without_binding(rest.skip(1), service@));
        }
        i = i + 1;
    }
    let ghost rest = sv.skip(i as int);
    if i < report.entries.len() {
        proof {
            assert(rest[0] == report.entries@[i as int]@);
        }
        report.entries.remove(i);
        assert(report@ =~= sv.take(i as int) + rest.skip(1));
    } else {
        assert(rest =~= Seq::empty());
        assert(report@ =~= sv.take(i as int) + rest);
    }
}

/// The listeners.
pub fn binds(report: &BindReport) -> (r: &Vec<PortBinding>)
    ensures
        binding_views(r@) == report@,
{
    &report.entries
}

/// How many listeners are failing.
pub fn failing(report: &BindReport) -> (n: usize)
    ensures
        n == failures(report@),
{
    let ghost sv = report@;
    let mut n: usize = 0;
    let mut i: usize = 0;
    assert(sv.take(0) =~= Seq::empty());
    while i < report.entries.len()
        invariant
            i <= report.entries@.len(),
            sv == report@,
            n == failures(sv.take(i as int)),
            n <= i,
        decreases report.entries@.len() - i,
    {
        proof {
            let longer = sv.take(i as int + 1);
            assert(longer.drop_last() =~= sv.take(i as int));
            assert(longer.last() == report.entries@[i as int]@);
        }
        if !report.entries[i].ok {
            n = n + 1;
        }
        i = i + 1;
    }
    assert(sv.take(sv.len() as int) =~= sv);
    n
}

/// A recorded bind reads back, and no other service's entry changes.
pub proof fn binds_read_back(s: Seq<BindingView>, b: BindingView, other: Seq<char>)
    ensures
        entry_of(with_binding(s, b), b.service) == Some(b),
        other != b.service ==> entry_of(with_binding(s, b), other) == entry_of(s, other),
    decreases s.len(),
{
    let r = with_binding(s, b);
    if s.len() == 0 {
        assert(r.skip(1) =~= s);
    } else if s[0].service == b.service {
        assert(r.skip(1) =~= s.skip(1));
    } else if lex_le(b.service, s[0].service) {
        assert(r.skip(1) =~= s);
    } else {
        binds_read_back(s.skip(1), b, other);
        assert(r.skip(1) =~= with_binding(s.skip(1), b));
    }
}

/// The names stand in order, none twice.
pub open spec fn report_ordered(s: Seq<BindingView>) -> bool {
    forall|i: int, j: int|
        0 <= i < j < s.len() ==> lex_le((#[trigger] s[i]).service, (#[trigger] s[j]).service)
            && s[i].service != s[j].service
}

proof fn lemma_entries_of(s: Seq<BindingView>, b: BindingView)
    ensures
        forall|i: int|
            0 <= i < with_binding(s, b).len() ==> (#[trigger] with_binding(s, b)[i]) == b
                || s.contains(with_binding(s, b)[i]),
    decreases s.len(),
{
    let r = with_binding(s, b);
    if s.len() == 0 {
    } else if s[0].service == b.service {
        assert forall|i: int| 0 <= i < r.len() implies (#[trigger] r[i]) == b || s.contains(r[i]) by {
            if i > 0 {
                assert(r[i] == s[i]);
            }
        }
    } else if lex_le(b.service, s[0].service) {
        assert forall|i: int| 0 <= i < r.len() implies (#[trigger] r[i]) == b || s.contains(r[i]) by {
            if i > 0 {
                assert(r[i] == s[i - 1]);
            }
        }
    } else {
        let t = s.skip(1);
        let u = with_binding(t, b);
        lemma_entries_of(t, b);
        assert forall|i: int| 0 <= i < r.len() implies (#[trigger] r[i]) == b || s.contains(r[i]) by {
            if i > 0 {
                assert(r[i] == u[i - 1]);
                if u[i - 1] != b {
                    let k = choose|k: int| 0 <= k < t.len() && t[k] == u[i - 1];
                    assert(s[k + 1] == t[k]);
                }
            } else {
                assert(r[0] == s[0]);
            }
        }
    }
}

/// Recording a bind keeps the report in order.
pub proof fn report_stays_in_order(s: Seq<BindingView>, b: BindingView)
    requires
        report_ordered(s),
    ensures
        report_ordered(with_binding(s, b)),
    decreases s.len(),
{
    let r = with_binding(s, b);
    if s.len() == 0 {
    } else if s[0].service == b.service {
        assert forall|i: int, j: int| 0 <= i < j < r.len() implies lex_le(
            (#[trigger] r[i]).service,
            (#[trigger] r[j]).service,
        ) && r[i].service != r[j].service by {
            assert(r[j] == s[j]);
            assert(s[i].service == r[i].service);
        }
    } else if lex_le(b.service, s[0].service) {
        assert forall|i: int, j: int| 0 <= i < j < r.len() implies lex_le(
            (#[trigger] r[i]).service,
            (#[trigger] r[j]).service,
        ) && r[i].service != r[j].service by {
            assert(r[j] == s[j - 1]);
            if i > 0 {
                assert(r[i] == s[i - 1]);
            } else if j > 1 {
                assert(lex_le(s[0].service, s[j - 1].service));
                crate::vessels::lemma_lex_trans(b.service, s[0].service, s[j - 1].service);
                if b.service == s[j - 1].service {
                    crate::vessels::lemma_lex_antisym(b.service, s[0].service);
                }
            }
        }
    } else {
        let t = s.skip(1);
        let u = with_binding(t, b);
        assert forall|i: int, j: int| 0 <= i < j < t.len() implies lex_le(
            (#[trigger] t[i]).service,
            (#[trigger] t[j]).service,
        ) && t[i].service != t[j].service by {
            assert(t[i] == s[i + 1] && t[j] == s[j + 1]);
        }
        report_stays_in_order(t, b);
        lemma_entries_of(t, b);
        crate::vessels::lemma_lex_total(b.service, s[0].service);
        assert forall|i: int, j: int| 0 <= i < j < r.len() implies lex_le(
            (#[trigger] r[i]).service,
            (#[trigger] r[j]).service,
        ) && r[i].service != r[j].service by {
            assert(r[j] == u[j - 1]);
            if i > 0 {
                assert(r[i] == u[i - 1]);
            } else {
                assert(r[0] == s[0]);
                if u[j - 1] != b {
                    let k = choose|k: int| 0 <= k < t.len() && t[k] == u[j - 1];
                    assert(t[k] == s[k + 1]);
                }
            }
        }
    }
}

proof fn lemma_remaining(s: Seq<BindingView>, service: Seq<char>)
    ensures
        forall|i: int|
            0 <= i < without_binding(s, service).len() ==> s.contains(
                #[trigger] without_binding(s, service)[i],
            ),
    decreases s.len(),
{
    let r = without_binding(s, service);
    if s.len() == 0 {
    } else if s[0].service == service {
        assert forall|i: int| 0 <= i < r.len() implies s.contains(#[trigger] r[i]) by {
            assert(r[i] == s[i + 1]);
        }
    } else {
        let t = s.skip(1);
        let u = without_binding(t, service);
        lemma_remaining(t, service);
        assert forall|i: int| 0 <= i < r.len() implies s.contains(#[trigger] r[i]) by {
            if i > 0 {
                assert(r[i] == u[i - 1]);
                let k = choose|k: int| 0 <= k < t.len() && t[k] == u[i - 1];
                assert(s[k + 1] == t[k]);
            } else {
                assert(r[0] == s[0]);
            }
        }
    }
}

proof fn lemma_no_entry(s: Seq<BindingView>, service: Seq<char>)
    requires
        forall|i: int| 0 <= i < s.len() ==> (#[trigger] s[i]).service != service,
    ensures
        entry_of(s, service) is None,
    decreases s.len(),
{
    if s.len() > 0 {
        let t = s.skip(1);
        assert forall|i: int| 0 <= i < t.len() implies (#[trigger] t[i]).service != service by {
            assert(t[i] == s[i + 1]);
        }
        lemma_no_entry(t, service);
    }
}

/// Clearing a service forgets its entry, changes no other service's, and keeps
/// the report in order.
pub proof fn clearing_forgets_one_service(
    s: Seq<BindingView>,
    service: Seq<char>,
    other: Seq<char>,
)
    requires
        report_ordered(s),
    ensures
        entry_of(without_binding(s, service), service) is None,
        other != service ==> entry_of(without_binding(s, service), other) == entry_of(s, other),
        report_ordered(without_binding(s, service)),
    decreases s.len(),
{
    let r = without_binding(s, service);
    if s.len() > 0 {
        let t = s.skip(1);
        assert forall|i: int, j: int| 0 <= i < j < t.len() implies lex_le(
            (#[trigger] t[i]).service,
            (#[trigger] t[j]).service,
        ) && t[i].service != t[j].service by {
            assert(t[i] == s[i + 1] && t[j] == s[j + 1]);
        }
        if s[0].service == service {
            assert forall|i: int| 0 <= i < t.len() implies (#[trigger] t[i]).service
                != service by {
                assert(t[i] == s[i + 1]);
            }
            lemma_no_entry(t, service);
        } else {
            let u = without_binding(t, service);
            clearing_forgets_one_service(t, service, other);
            lemma_remaining(t, service);
            assert(r.skip(1) =~= u);
            assert forall|i: int, j: int| 0 <= i < j < r.len() implies lex_le(
                (#[trigger] r[i]).service,
                (#[trigger] r[j]).service,
            ) && r[i].service != r[j].service by {
                assert(r[j] == u[j - 1]);
                if i > 0 {
                    assert(r[i] == u[i - 1]);
                } else {
                    assert(r[0] == s[0]);
                    let k = choose|k: int| 0 <= k < t.len() && t[k] == u[j - 1];
                    assert(t[k] == s[k + 1]);
                }
            }
        }
    }
}

// What the preflight is for.

/// The port that a plan has for a setting.
pub open spec fn port_of(p: PlanView, s: Setting) -> u16 {
    match s {
        Setting::Api => p.api_port,
        Setting::Dns => p.dns_port,
        Setting::K8s => p.k8s_port,
    }
}

/// Whether a check is that of a setting of the plan: it probes the port, the
/// transport and the address that the service will bind.
pub open spec fn checks_setting(c: CheckView, p: PlanView, s: Setting) -> bool {
    &&& c.setting == s
    &&& c.port == port_of(p, s)
    &&& c.proto == (if s == Setting::Dns {
        Proto::Udp
    } else {
        Proto::Tcp
    })
    &&& c.host == (match s {
        Setting::Api => p.api_host,
        Setting::Dns => "0.0.0.0"@,
        Setting::K8s => "127.0.0.1"@,
    })
}

/// Every port of a plan is probed once, but for an API that is switched off.
pub proof fn every_port_is_probed(p: PlanView, s: Setting, i: int, j: int)
    ensures
        ({
            let c = checks_of(p);
            &&& c.len() == (if p.api_port == 0 {
                2nat
            } else {
                3nat
            })
            &&& s != Setting::Api || p.api_port != 0 ==> exists|k: int|
                0 <= k < c.len() && checks_setting(#[trigger] c[k], p, s)
            &&& 0 <= i < c.len() ==> checks_setting(c[i], p, c[i].setting)
            &&& 0 <= i < j < c.len() ==> c[i].setting != c[j].setting
        }),
{
    let c = checks_of(p);
    let k: int = if p.api_port == 0 {
        0
    } else {
        1
    };
    assert(checks_setting(c[k], p, Setting::Dns));
    assert(checks_setting(c[k + 1], p, Setting::K8s));
    if p.api_port != 0 {
        assert(checks_setting(c[0], p, Setting::Api));
    }
}

/// The port that is moved to is the lowest that is free from the wanted one on,
/// and within two hundred of it; there is none exactly where none is free.
pub proof fn the_lowest_free_port_is_taken(port: u16, free: Seq<u16>)
    ensures
        match near(port, free) {
            Some(q) => free.contains(q) && port <= q <= port + 200 && forall|r: u16|
                port <= r < q ==> !(#[trigger] free.contains(r)),
            None => forall|r: u16| port <= r <= port + 200 ==> !(#[trigger] free.contains(r)),
        },
{
    lemma_lowest(port as int, at_most_u16(port + 200), free);
}

proof fn lemma_lowest(p: int, hi: int, free: Seq<u16>)
    requires
        0 <= p,
        hi <= 65535,
    ensures
        match free_from(p, hi, free) {
            Some(q) => p <= q <= hi && free.contains(q) && forall|r: u16|
                p <= r < q ==> !(#[trigger] free.contains(r)),
            None => forall|r: u16| p <= r <= hi ==> !(#[trigger] free.contains(r)),
        },
    decreases hi - p + 1,
{
    if p <= hi && !free.contains(p as u16) {
        lemma_lowest(p + 1, hi, free);
        assert forall|r: u16|
            p <= r && (match free_from(p, hi, free) {
                Some(q) => r < q,
                None => r <= hi,
            }) implies !(#[trigger] free.contains(r)) by {
            if r == p {
                assert(r == p as u16);
            }
        }
    }
}

/// Whether a port can be bound after the preflight: it was free, or, where the
/// policy moves ports, it is one of those above the taken one that are.
pub open spec fn bindable(p: Probed, policy: ConflictPolicy, wanted: u16, got: u16) -> bool {
    match p {
        Probed::Free => got == wanted,
        Probed::InUse { holder, free } => policy == ConflictPolicy::Auto && free@.contains(got)
            && wanted <= got <= wanted + 200,
        Probed::Failed(e) => false,
    }
}

/// Whether nothing can be done about a port.
pub open spec fn blocked(p: Probed, policy: ConflictPolicy, wanted: u16) -> bool {
    match p {
        Probed::Free => false,
        Probed::InUse { holder, free } => policy == ConflictPolicy::Fail || forall|r: u16|
            wanted <= r <= wanted + 200 ==> !(#[trigger] free@.contains(r)),
        Probed::Failed(e) => true,
    }
}

proof fn lemma_no_failure(checks: Seq<CheckView>, probes: Seq<Probed>)
    requires
        checks.len() <= probes.len(),
    ensures
        first_failure(checks, probes) is None <==> forall|i: int|
            0 <= i < checks.len() ==> !((#[trigger] probes[i]) is Failed),
    decreases checks.len(),
{
    if checks.len() > 0 {
        lemma_no_failure(checks.drop_last(), probes);
    }
}

proof fn lemma_settled(
    plan: PlanView,
    checks: Seq<CheckView>,
    probes: Seq<Probed>,
    policy: ConflictPolicy,
)
    requires
        checks.len() <= probes.len(),
        forall|i: int| 0 <= i < checks.len() ==> (#[trigger] checks[i]).port == port_of(
            plan,
            checks[i].setting,
        ),
        forall|i: int, j: int|
            0 <= i < j < checks.len() ==> (#[trigger] checks[i]).setting != (
            #[trigger] checks[j]).setting,
    ensures
        ({
            let q = settled(plan, checks, probes, policy);
            &&& q.api_host == plan.api_host && q.dns_zone == plan.dns_zone
            &&& forall|i: int|
                0 <= i < checks.len() && !conflicts(checks[i], probes[i], policy) && !(
                probes[i] is Failed) ==> bindable(
                    #[trigger] probes[i],
                    policy,
                    checks[i].port,
                    port_of(q, checks[i].setting),
                )
            &&& forall|s: Setting|
                (forall|i: int| 0 <= i < checks.len() ==> (#[trigger] checks[i]).setting != s)
                    ==> #[trigger] port_of(q, s) == port_of(plan, s)
        }),
    decreases checks.len(),
{
    if checks.len() > 0 {
        let init = checks.drop_last();
        let n = checks.len() - 1;
        assert forall|i: int| 0 <= i < init.len() implies (#[trigger] init[i]).port == port_of(
            plan,
            init[i].setting,
        ) by {
            assert(init[i] == checks[i]);
        }
        assert forall|i: int, j: int| 0 <= i < j < init.len() implies (
        #[trigger] init[i]).setting != (#[trigger] init[j]).setting by {
            assert(init[i] == checks[i] && init[j] == checks[j]);
        }
        lemma_settled(plan, init, probes, policy);
        let b = settled(plan, init, probes, policy);
        let q = settled(plan, checks, probes, policy);
        let last = checks.last();
        assert(checks[n] == last);
        assert(forall|i: int| 0 <= i < init.len() ==> (#[trigger] init[i]).setting != last.setting) by {
            assert forall|i: int| 0 <= i < init.len() implies (#[trigger] init[i]).setting
                != last.setting by {
                assert(init[i] == checks[i]);
            }
        }
        assert(port_of(b, last.setting) == last.port);
        if let Probed::InUse { holder, free } = probes[n] {
            the_lowest_free_port_is_taken(last.port, free@);
        }
        assert forall|i: int|
            0 <= i < checks.len() && !conflicts(checks[i], probes[i], policy) && !(
            probes[i] is Failed) implies bindable(
            #[trigger] probes[i],
            policy,
            checks[i].port,
            port_of(q, checks[i].setting),
        ) by {
            if i < n {
                assert(init[i] == checks[i]);
                assert(checks[i].setting != checks[n].setting);
                assert(port_of(q, checks[i].setting) == port_of(b, checks[i].setting));
            }
        }
        assert forall|s: Setting|
            (forall|i: int| 0 <= i < checks.len() ==> (#[trigger] checks[i]).setting != s) implies
            #[trigger] port_of(q, s) == port_of(plan, s) by {
            assert forall|i: int| 0 <= i < init.len() implies (#[trigger] init[i]).setting != s by {
                assert(init[i] == checks[i]);
            }
            assert(port_of(b, s) == port_of(plan, s));
            assert(checks[n].setting != s);
        }
    }
}

/// An accepted plan can be bound: each of its ports was free, or was moved, which
/// only the policy that moves ports does, to a free one. Nothing else of the plan
/// changes. Under the policy that fails, an accepted plan is the one that was
/// asked for and every one of its ports was free.
pub proof fn an_accepted_plan_can_be_bound(
    plan: PlanView,
    policy: ConflictPolicy,
    probes: Seq<Probed>,
    i: int,
)
    requires
        probes.len() == checks_of(plan).len(),
        preflight_of(plan, policy, probes) is Ok,
    ensures
        ({
            let q = preflight_of(plan, policy, probes)->Ok_0;
            let c = checks_of(plan);
            &&& 0 <= i < c.len() ==> bindable(
                probes[i],
                policy,
                port_of(plan, c[i].setting),
                port_of(q, c[i].setting),
            )
            &&& plan.api_port == 0 ==> q.api_port == 0
            &&& q.api_host == plan.api_host && q.dns_zone == plan.dns_zone
            &&& policy == ConflictPolicy::Fail ==> q == plan && (0 <= i < c.len()
                ==> probes[i] is Free)
        }),
{
    let c = checks_of(plan);
    let q = settled(plan, c, probes, policy);
    assert forall|a: int, b: int| 0 <= a < b < c.len() implies (#[trigger] c[a]).setting != (
    #[trigger] c[b]).setting by {
        every_port_is_probed(plan, Setting::Api, a, b);
    }
    assert forall|a: int| 0 <= a < c.len() implies (#[trigger] c[a]).port == port_of(
        plan,
        c[a].setting,
    ) by {
        every_port_is_probed(plan, Setting::Api, a, a + 1);
    }
    lemma_settled(plan, c, probes, policy);
    lemma_no_failure(c, probes);
    assert forall|a: int| 0 <= a < c.len() implies bindable(
        #[trigger] probes[a],
        policy,
        c[a].port,
        port_of(q, c[a].setting),
    ) by {
        assert(!conflicts(c[a], probes[a], policy));
        assert(!(probes[a] is Failed));
    }
    let k: int = if plan.api_port == 0 {
        0
    } else {
        1
    };
    assert(bindable(probes[k], policy, c[k].port, port_of(q, c[k].setting)));
    assert(bindable(probes[k + 1], policy, c[k + 1].port, port_of(q, c[k + 1].setting)));
    if plan.api_port != 0 {
        assert(bindable(probes[0], policy, c[0].port, port_of(q, c[0].setting)));
    } else {
        assert(port_of(q, Setting::Api) == port_of(plan, Setting::Api));
    }
    if 0 <= i < c.len() {
        assert(bindable(probes[i], policy, c[i].port, port_of(q, c[i].setting)));
    }
    if policy == ConflictPolicy::Fail {
        assert(q.api_port == plan.api_port && q.dns_port == plan.dns_port && q.k8s_port
            == plan.k8s_port);
    }
}

/// A start is refused exactly where nothing can be done about one of the ports.
pub proof fn a_start_is_refused_for_a_blocked_port(
    plan: PlanView,
    policy: ConflictPolicy,
    probes: Seq<Probed>,
)
    requires
        probes.len() == checks_of(plan).len(),
    ensures
        preflight_of(plan, policy, probes) is Err <==> exists|i: int|
            0 <= i < checks_of(plan).len() && blocked(
                #[trigger] probes[i],
                policy,
                checks_of(plan)[i].port,
            ),
{
    let c = checks_of(plan);
    lemma_no_failure(c, probes);
    assert forall|i: int| 0 <= i < c.len() implies blocked(#[trigger] probes[i], policy, c[i].port)
        == (probes[i] is Failed || conflicts(c[i], probes[i], policy)) by {
        if let Probed::InUse { holder, free } = probes[i] {
            the_lowest_free_port_is_taken(c[i].port, free@);
        }
    }
    if any_conflict(c, probes, policy) {
        let i = choose|i: int| 0 <= i < c.len() && conflicts(#[trigger] c[i], probes[i], policy);
        assert(blocked(probes[i], policy, c[i].port));
    }
}

/// The words for a port that is taken.
pub open spec fn names_port(c: CheckView, holder: Option<Holder>) -> Seq<char> {
    c.proto.text() + " "@ + crate::text::decimal(c.port as nat) + " ("@ + c.setting.text()
        + ") is already in use by "@ + (match holder {
        Some(h) => h@.text(),
        None => "another process"@,
    }) + "\n"@
}

proof fn lemma_line(c: CheckView, holder: Option<Holder>)
    ensures
        conflict_line(c, holder) == names_port(c, holder),
{
    reveal_strlit(") is already in use");
    reveal_strlit(") is already in use by ");
    reveal_strlit(" by ");
    reveal_strlit(" by another process\n");
    reveal_strlit("another process");
    reveal_strlit("\n");
    assert(conflict_line(c, holder) =~= names_port(c, holder));
}

proof fn lemma_part(a: Seq<char>, b: Seq<char>, c: Seq<char>)
    ensures
        crate::text::has_part(a + b + c, b),
        crate::text::has_part(a, b) ==> crate::text::has_part(a + c, b),
{
    assert((a + b + c).subrange(a.len() as int, (a.len() + b.len()) as int) =~= b);
    assert(crate::text::occurs_at(a + b + c, b, a.len() as int));
    if crate::text::has_part(a, b) {
        let i = choose|i: int| crate::text::occurs_at(a, b, i);
        assert((a + c).subrange(i, i + b.len()) =~= a.subrange(i, i + b.len()));
        assert(crate::text::occurs_at(a + c, b, i));
    }
}

proof fn lemma_lines_name(
    checks: Seq<CheckView>,
    probes: Seq<Probed>,
    policy: ConflictPolicy,
    i: int,
)
    requires
        0 <= i < checks.len() <= probes.len(),
        conflicts(checks[i], probes[i], policy),
    ensures
        crate::text::has_part(
            conflict_lines(checks, probes, policy),
            names_port(checks[i], probes[i]->holder),
        ),
    decreases checks.len(),
{
    let n = checks.len() - 1;
    let before = conflict_lines(checks.drop_last(), probes, policy);
    let want = names_port(checks[i], probes[i]->holder);
    lemma_line(checks[i], probes[i]->holder);
    if i == n {
        lemma_part(before, want, Seq::empty());
        assert(before + want + Seq::<char>::empty() =~= before + want);
    } else {
        assert(checks.drop_last()[i] == checks[i]);
        lemma_lines_name(checks.drop_last(), probes, policy, i);
        if conflicts(checks.last(), probes[n], policy) {
            lemma_part(before, want, conflict_line(checks.last(), probes[n]->holder));
        }
    }
}

/// A refusal for taken ports names every one of them: the transport, the number,
/// the setting, and who holds it.
pub proof fn a_refusal_names_every_taken_port(
    plan: PlanView,
    policy: ConflictPolicy,
    probes: Seq<Probed>,
    i: int,
)
    requires
        probes.len() == checks_of(plan).len(),
        forall|k: int| 0 <= k < probes.len() ==> !((#[trigger] probes[k]) is Failed),
        0 <= i < probes.len(),
        blocked(probes[i], policy, checks_of(plan)[i].port),
    ensures
        preflight_of(plan, policy, probes) is Err,
        crate::text::has_part(
            preflight_of(plan, policy, probes)->Err_0,
            names_port(checks_of(plan)[i], probes[i]->holder),
        ),
{
    let c = checks_of(plan);
    lemma_no_failure(c, probes);
    if let Probed::InUse { holder, free } = probes[i] {
        the_lowest_free_port_is_taken(c[i].port, free@);
    }
    assert(conflicts(c[i], probes[i], policy));
    lemma_lines_name(c, probes, policy, i);
    let want = names_port(c[i], probes[i]->holder);
    let text = conflict_text(plan, c, probes, policy);
    let head = conflict_lines(c, probes, policy);
    let tail = text.skip(head.len() as int);
    assert(text =~= head + tail) by {
        assert(text.take(head.len() as int) =~= head);
    }
    lemma_part(head, want, tail);
}

/// A refusal for a port that cannot be bound at all is about the first of them.
pub proof fn the_first_unbindable_port_is_told(
    plan: PlanView,
    policy: ConflictPolicy,
    probes: Seq<Probed>,
    i: int,
)
    requires
        probes.len() == checks_of(plan).len(),
        0 <= i < probes.len(),
        probes[i] is Failed,
        forall|k: int| 0 <= k < i ==> !((#[trigger] probes[k]) is Failed),
    ensures
        ({
            let c = checks_of(plan)[i];
            preflight_of(plan, policy, probes) == Err::<PlanView, Seq<char>>(
                "cannot bind "@ + c.proto.text() + " "@ + c.host + ":"@ + crate::text::decimal(
                    c.port as nat,
                ) + " ("@ + c.setting.text() + "): "@ + probes[i]->Failed_0@,
            )
        }),
{
    lemma_first(checks_of(plan), probes, i);
}

proof fn lemma_first(checks: Seq<CheckView>, probes: Seq<Probed>, i: int)
    requires
        0 <= i < checks.len() <= probes.len(),
        probes[i] is Failed,
        forall|k: int| 0 <= k < i ==> !((#[trigger] probes[k]) is Failed),
    ensures
        ({
            let c = checks[i];
            first_failure(checks, probes) == Some(
                "cannot bind "@ + c.proto.text() + " "@ + c.host + ":"@ + crate::text::decimal(
                    c.port as nat,
                ) + " ("@ + c.setting.text() + "): "@ + probes[i]->Failed_0@,
            )
        }),
    decreases checks.len(),
{
    let init = checks.drop_last();
    if i < init.len() {
        assert(init[i] == checks[i]);
        lemma_first(init, probes, i);
    } else {
        lemma_no_failure(init, probes);
    }
}

/// The owner that `lsof` lists is read back: a process and then its command,
/// whatever follows.
pub proof fn a_listed_owner_is_read(pid: u32, command: Seq<char>, rest: Seq<Seq<char>>)
    ensures
        lsof_owner(
            seq![seq!['p'] + crate::text::decimal(pid as nat), seq!['c'] + command] + rest,
            None,
        ) == Some((pid as nat, command)),
        lsof_owner(seq![seq!['p'] + crate::text::decimal(pid as nat)], None) == Some(
            (pid as nat, "unknown"@),
        ),
{
    let p = seq!['p'] + crate::text::decimal(pid as nat);
    let c = seq!['c'] + command;
    let all = seq![p, c] + rest;
    crate::text::decimal_reads_back(pid as nat);
    assert(p.skip(1) =~= crate::text::decimal(pid as nat));
    assert(c.skip(1) =~= command);
    assert(all.skip(1) =~= seq![c] + rest);
    assert((seq![c] + rest)[0] == c);
    assert(lsof_owner(seq![c] + rest, Some(pid as nat)) == Some((pid as nat, command)));
    assert(seq![p].skip(1) =~= Seq::empty());
    assert(lsof_owner(seq![p].skip(1), Some(pid as nat)) == Some((pid as nat, "unknown"@)));
}

/// What is configured is planned, and what is not has its default; the
/// environment's host goes before the configured one, unless it is empty.
pub proof fn what_a_configuration_plans(cfg: Config, env_host: Option<String>, p: PlanView)
    requires
        planned(cfg, env_host, p),
    ensures
        env_host matches Some(h) ==> h@.len() > 0 ==> p.api_host == h@,
        env_host is None || env_host->0@.len() == 0 ==> p.api_host == (match cfg.api_host {
            Some(h) => h@,
            None => "127.0.0.1"@,
        }),
        cfg.api_port matches Some(n) ==> p.api_port == n,
        cfg.dns_port matches Some(n) ==> p.dns_port == n,
        cfg.k8s_port matches Some(n) ==> p.k8s_port == n,
        cfg.dns_zone matches Some(z) ==> p.dns_zone == z@,
        cfg.api_port is None ==> p.api_port == 7440,
        cfg.dns_port is None ==> p.dns_port == 42053,
        cfg.k8s_port is None ==> p.k8s_port == 6443,
        cfg.dns_zone is None ==> p.dns_zone == "nebula.local"@,
{
}

} // verus!

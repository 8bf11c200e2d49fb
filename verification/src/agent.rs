//! What the guest's agent decides: the answers to its control protocol, the
//! figures it reads off `/proc`, how long a command may run, and the
//! supervision of k3s.

use crate::bytes::from_utf8_lossy;
use crate::double::{number, unwrap_or_zero, Double};
use crate::proto::{
    AgentRequest, AgentResponse, ExecResult, Health, MemStats, ServiceAction, HOST_DNS_UDP_PORT,
    PROTO_VERSION,
};
use crate::text::{
    cat3, lines, owned, parse_hex, parse_u16, parse_u64, push_line, same, starts_with,
    strip_prefix, words,
};
use vstd::prelude::*;

verus! {

/// How much of a command's output is kept, in bytes.
pub const OUTPUT_CAP: usize = 65536;

/// The search path of whatever the agent starts.
pub const GUEST_PATH: &'static str = "/usr/local/sbin:/usr/local/bin:/usr/sbin:/usr/bin:/sbin:/bin";

// Requests

/// What a request asks of the guest.
#[derive(Debug)]
pub enum AgentDo {
    Health,
    MemStats,
    Exec { cmd: String, args: Vec<String>, env: Vec<(String, String)>, timeout_ms: u64 },
    /// Remember that k3s is wanted, and supervise it.
    EnableK3s,
    /// Forget it, and stop it.
    DisableK3s,
    StatusK3s,
    /// Power off shortly after the answer.
    PowerOff,
    /// Nothing but an answer.
    Answer(AgentResponse),
}

/// What a request asks of the agent.
pub open spec fn asks(req: AgentRequest, d: AgentDo) -> bool {
    match req {
        AgentRequest::Health => d == AgentDo::Health,
        AgentRequest::MemStats => d == AgentDo::MemStats,
        AgentRequest::Exec { cmd, args, env, timeout_ms } => d == (AgentDo::Exec {
            cmd,
            args,
            env,
            timeout_ms,
        }),
        AgentRequest::Shutdown => d == AgentDo::PowerOff,
        AgentRequest::ServiceCtl { name, action } => if name@ == "k3s"@ {
            d == (match action {
                ServiceAction::Start => AgentDo::EnableK3s,
                ServiceAction::Stop => AgentDo::DisableK3s,
                ServiceAction::Status => AgentDo::StatusK3s,
            })
        } else {
            d matches AgentDo::Answer(AgentResponse::Error { message }) && message@
                == "unknown service `"@ + name@ + "`"@
        },
    }
}

/// Decide what a request asks for. k3s is the only service.
pub fn dispatch(req: AgentRequest) -> (d: AgentDo)
    ensures
        asks(req, d),
{
    match req {
        AgentRequest::Health => AgentDo::Health,
        AgentRequest::MemStats => AgentDo::MemStats,
        AgentRequest::Exec { cmd, args, env, timeout_ms } => AgentDo::Exec {
            cmd,
            args,
            env,
            timeout_ms,
        },
        AgentRequest::Shutdown => AgentDo::PowerOff,
        AgentRequest::ServiceCtl { name, action } => {
            if !same(name.as_str(), "k3s") {
                return AgentDo::Answer(
                    AgentResponse::Error { message: cat3("unknown service `", name.as_str(), "`") },
                );
            }
            match action {
                ServiceAction::Start => AgentDo::EnableK3s,
                ServiceAction::Stop => AgentDo::DisableK3s,
                ServiceAction::Status => AgentDo::StatusK3s,
            }
        },
    }
}

/// The answer to a line that is no request.
pub fn bad_request(why: &str) -> (r: AgentResponse)
    ensures
        r matches AgentResponse::Error { message } && message@ == "bad request: "@ + why@,
{
    AgentResponse::Error { message: crate::text::cat2("bad request: ", why) }
}

// Figures

/// The first line that starts with a word.
pub open spec fn line_with(lines: Seq<Seq<char>>, start: Seq<char>) -> Option<Seq<char>>
    decreases lines.len(),
{
    if lines.len() == 0 {
        None
    } else if crate::text::has_prefix(lines[0], start) {
        Some(lines[0])
    } else {
        line_with(lines.skip(1), start)
    }
}

fn find_line(ls: &Vec<String>, start: &str) -> (r: Option<String>)
    ensures
        crate::text::opt_view(r) == line_with(crate::text::views(ls@), start@),
{
    let ghost all = crate::text::views(ls@);
    let mut i: usize = 0;
    assert(all.skip(0) =~= all);
    while i < ls.len()
        invariant
            i <= ls@.len(),
            all == crate::text::views(ls@),
            line_with(all, start@) == line_with(all.skip(i as int), start@),
        decreases ls@.len() - i,
    {
        assert(all.skip(i as int)[0] == ls@[i as int]@);
        assert(all.skip(i as int).skip(1) =~= all.skip(i as int + 1));
        if starts_with(ls[i].as_str(), start) {
            return Some(owned(ls[i].as_str()));
        }
        i = i + 1;
    }
    assert(all.skip(ls@.len() as int) =~= Seq::empty());
    None
}

/// A figure of `/proc/meminfo`; zero where it is not given.
pub open spec fn mem_field(lines: Seq<Seq<char>>, name: Seq<char>) -> nat {
    match line_with(lines, name) {
        Some(l) => {
            let w = crate::text::words_of(l);
            if w.len() >= 2 {
                match crate::text::parse_dec(w[1], u64::MAX as nat) {
                    Some(n) => n,
                    None => 0,
                }
            } else {
                0
            }
        },
        None => 0,
    }
}

fn read_field(ls: &Vec<String>, name: &str) -> (n: u64)
    ensures
        n == mem_field(crate::text::views(ls@), name@),
{
    match find_line(ls, name) {
        Some(l) => {
            let w: Vec<String> = words(l.as_str());
            let ghost wv = crate::text::views(w@);
            if w.len() >= 2 {
                assert(wv[1] == w@[1]@);
                match parse_u64(w[1].as_str()) {
                    Some(n) => n,
                    None => 0,
                }
            } else {
                0
            }
        },
        None => 0,
    }
}

/// What follows the first of the words that starts with a key.
pub open spec fn word_after(words: Seq<Seq<char>>, key: Seq<char>) -> Option<Seq<char>>
    decreases words.len(),
{
    if words.len() == 0 {
        None
    } else {
        match crate::text::after_prefix(words[0], key) {
            Some(v) => Some(v),
            None => word_after(words.skip(1), key),
        }
    }
}

fn find_word(w: &Vec<String>, key: &str) -> (r: Option<String>)
    ensures
        crate::text::opt_view(r) == word_after(crate::text::views(w@), key@),
{
    let ghost all = crate::text::views(w@);
    let mut i: usize = 0;
    assert(all.skip(0) =~= all);
    while i < w.len()
        invariant
            i <= w@.len(),
            all == crate::text::views(w@),
            word_after(all, key@) == word_after(all.skip(i as int), key@),
        decreases w@.len() - i,
    {
        assert(all.skip(i as int)[0] == w@[i as int]@);
        assert(all.skip(i as int).skip(1) =~= all.skip(i as int + 1));
        match strip_prefix(w[i].as_str(), key) {
            Some(v) => {
                return Some(v);
            },
            None => {},
        }
        i = i + 1;
    }
    assert(all.skip(w@.len() as int) =~= Seq::empty());
    None
}

/// The pressure of the last ten seconds, a percentage, as the kernel wrote it.
pub open spec fn psi_avg10(psi: Seq<char>, kind: Seq<char>) -> Option<Seq<char>> {
    match line_with(crate::text::lines_of(psi), kind) {
        Some(l) => match word_after(crate::text::words_of(l), "avg10="@) {
            Some(v) => if crate::double::is_number(v) {
                Some(v)
            } else {
                None
            },
            None => None,
        },
        None => None,
    }
}

/// The pressure of a kind (`some`, `full`), from `/proc/pressure/memory`: a
/// number as text.
pub fn pressure(psi: &str, kind: &str) -> (r: Option<String>)
    ensures
        crate::text::opt_view(r) == psi_avg10(psi@, kind@),
{
    match find_line(&lines(psi), kind) {
        Some(l) => match find_word(&words(l.as_str()), "avg10=") {
            Some(v) => number(v),
            None => None,
        },
        None => None,
    }
}

/// The guest's memory, from `/proc/meminfo` and its pressures.
pub fn mem_stats(meminfo: &str, some: Option<Double>, full: Option<Double>) -> (m: MemStats)
    ensures
        ({
            let ls = crate::text::lines_of(meminfo@);
            &&& m.total_kib == mem_field(ls, "MemTotal:"@)
            &&& m.free_kib == mem_field(ls, "MemFree:"@)
            &&& m.available_kib == mem_field(ls, "MemAvailable:"@)
            &&& m.cached_kib == mem_field(ls, "Cached:"@)
            &&& m.psi_some_avg10 == some
            &&& m.psi_full_avg10 == full
        }),
{
    let ls: Vec<String> = lines(meminfo);
    MemStats {
        total_kib: read_field(&ls, "MemTotal:"),
        free_kib: read_field(&ls, "MemFree:"),
        available_kib: read_field(&ls, "MemAvailable:"),
        cached_kib: read_field(&ls, "Cached:"),
        psi_some_avg10: some,
        psi_full_avg10: full,
    }
}

/// The seconds since the boot, from `/proc/uptime`: its first word, where that
/// is a number.
pub fn uptime(text: &str) -> (r: Option<String>)
    ensures
        crate::text::opt_view(r) == ({
            let w = crate::text::words_of(text@);
            if w.len() >= 1 && crate::double::is_number(w[0]) {
                Some(w[0])
            } else {
                None
            }
        }),
{
    let w: Vec<String> = words(text);
    let ghost wv = crate::text::views(w@);
    if w.len() == 0 {
        return None;
    }
    assert(wv[0] == w@[0]@);
    number(owned(w[0].as_str()))
}

/// How the guest is: its kernel and address are the guest's to say, and its
/// uptime in seconds, where that is known, counts in whole ones.
pub fn health(version: &str, kernel: &str, uptime: Option<Double>, ip: &Option<String>) -> (h:
    Health)
    ensures
        h.proto_version == PROTO_VERSION,
        h.agent_version@ == version@,
        h.kernel@ == kernel@,
        h.uptime_secs == crate::double::or_zero(uptime).whole(),
        crate::text::opt_view(h.ip) == crate::text::opt_view(*ip),
{
    Health {
        proto_version: PROTO_VERSION,
        agent_version: owned(version),
        kernel: owned(kernel),
        uptime_secs: unwrap_or_zero(uptime).truncated(),
        ip: crate::text::opt_owned(ip),
    }
}

// The way out

/// The default gateway of a routing line, in the order in which an address is
/// written.
pub open spec fn gateway_of(line: Seq<char>) -> Option<Seq<u8>> {
    let w = crate::text::words_of(line);
    if w.len() >= 3 && w[1] == "00000000"@ {
        match crate::text::hex_number(w[2], u32::MAX as nat) {
            Some(gw) => if gw != 0 {
                Some(crate::bytes::le32(gw as u32))
            } else {
                None
            },
            None => None,
        }
    } else {
        None
    }
}

/// The first default gateway among the lines.
pub open spec fn first_gateway(lines: Seq<Seq<char>>) -> Option<Seq<u8>>
    decreases lines.len(),
{
    if lines.len() == 0 {
        None
    } else {
        match gateway_of(lines[0]) {
            Some(g) => Some(g),
            None => first_gateway(lines.skip(1)),
        }
    }
}

fn read_gateway(line: &str) -> (r: Option<Vec<u8>>)
    ensures
        match r {
            Some(g) => gateway_of(line@) == Some(g@),
            None => gateway_of(line@) is None,
        },
{
    let w: Vec<String> = words(line);
    let ghost wv = crate::text::views(w@);
    if w.len() >= 3 {
        assert(wv[1] == w@[1]@ && wv[2] == w@[2]@);
        if same(w[1].as_str(), "00000000") {
            match parse_hex(w[2].as_str(), 0xffff_ffff) {
                Some(gw) => {
                    if gw != 0 {
                        let mut out: Vec<u8> = Vec::new();
                        crate::bytes::push_le32(&mut out, gw as u32);
                        assert(out@ =~= crate::bytes::le32(gw as u32));
                        return Some(out);
                    }
                },
                None => {},
            }
        }
    }
    None
}

/// The default gateway, from `/proc/net/route`, whose first line is a heading.
pub fn default_gateway(route: &str) -> (r: Option<Vec<u8>>)
    ensures
        ({
            let ls = crate::text::lines_of(route@);
            let want = if ls.len() == 0 {
                None
            } else {
                first_gateway(ls.skip(1))
            };
            match r {
                Some(g) => want == Some(g@),
                None => want is None,
            }
        }),
{
    let ls: Vec<String> = lines(route);
    let ghost all = crate::text::views(ls@);
    let n: usize = ls.len();
    if n == 0 {
        return None;
    }
    let mut i: usize = 1;
    while i < n
        invariant
            1 <= i <= n,
            n == ls@.len(),
            all == crate::text::views(ls@),
            all == crate::text::lines_of(route@),
            first_gateway(all.skip(1)) == first_gateway(all.skip(i as int)),
        decreases n - i,
    {
        assert(all.skip(i as int)[0] == ls@[i as int]@);
        assert(all.skip(i as int).skip(1) =~= all.skip(i as int + 1));
        match read_gateway(ls[i].as_str()) {
            Some(g) => {
                return Some(g);
            },
            None => {},
        }
        i = i + 1;
    }
    assert(all.skip(n as int) =~= Seq::empty());
    None
}

/// The port on the host where DNS queries go.
pub fn dns_port(env: &Option<String>) -> (p: u16)
    ensures
        p == (match *env {
            Some(v) => match crate::text::parse_dec(v@, u16::MAX as nat) {
                Some(n) => n,
                None => HOST_DNS_UDP_PORT as nat,
            },
            None => HOST_DNS_UDP_PORT as nat,
        }),
{
    match env {
        Some(v) => match parse_u16(v.as_str()) {
            Some(n) => n,
            None => HOST_DNS_UDP_PORT,
        },
        None => HOST_DNS_UDP_PORT,
    }
}

// Commands

/// What follows a look at a running command.
#[derive(Debug, Clone, Copy, PartialEq, Eq, Structural)]
pub enum ExecStep {
    Finished,
    /// Its time is up.
    Kill,
    Wait,
}

pub fn exec_step(exited: bool, elapsed_ms: u64, timeout_ms: u64) -> (s: ExecStep)
    ensures
        s == (if exited {
            ExecStep::Finished
        } else if elapsed_ms >= timeout_ms {
            ExecStep::Kill
        } else {
            ExecStep::Wait
        }),
{
    if exited {
        ExecStep::Finished
    } else if elapsed_ms >= timeout_ms {
        ExecStep::Kill
    } else {
        ExecStep::Wait
    }
}

/// The output that is kept.
pub open spec fn kept(bytes: Seq<u8>) -> Seq<u8> {
    if bytes.len() > OUTPUT_CAP {
        bytes.take(OUTPUT_CAP as int)
    } else {
        bytes
    }
}

fn cap(bytes: &[u8]) -> (s: String)
    ensures
        s@ == crate::bytes::lossy_text(kept(bytes@)),
{
    if bytes.len() > OUTPUT_CAP {
        let head: &[u8] = vstd::slice::slice_subrange(bytes, 0, OUTPUT_CAP);
        assert(head@ =~= bytes@.take(OUTPUT_CAP as int));
        from_utf8_lossy(head)
    } else {
        from_utf8_lossy(bytes)
    }
}

/// What a command came to: its exit code, or minus one where a signal ended
/// it, and the head of what it wrote.
pub fn exec_result(code: Option<i32>, stdout: &[u8], stderr: &[u8], timed_out: bool) -> (r: ExecResult)
    ensures
        r.exit_code == (match code {
            Some(c) => c as int,
            None => -1int,
        }),
        r.stdout@ == crate::bytes::lossy_text(kept(stdout@)),
        r.stderr@ == crate::bytes::lossy_text(kept(stderr@)),
        r.timed_out == timed_out,
{
    ExecResult {
        exit_code: match code {
            Some(c) => c,
            None => -1,
        },
        stdout: cap(stdout),
        stderr: cap(stderr),
        timed_out,
    }
}

// k3s

/// What the supervisor knows of k3s.
#[derive(Debug, Clone, Copy, PartialEq, Eq, Structural)]
pub struct Supervisor {
    /// A supervisor runs.
    pub supervising: bool,
    /// The process of k3s, or minus one.
    pub pid: i32,
}

/// What happens to it.
#[derive(Debug, Clone, Copy, PartialEq, Eq, Structural)]
pub enum K3sEvent {
    /// The agent starts; k3s may have been wanted before.
    Boot { wanted: bool },
    Enable,
    Disable,
    /// The supervisor looks whether k3s is still wanted.
    Look { wanted: bool },
    Spawned { pid: i32 },
    SpawnFailed,
    Exited,
}

/// What is done about it.
#[derive(Debug, Clone, Copy, PartialEq, Eq, Structural)]
pub enum K3sDo {
    Idle,
    /// Remember that it is wanted.
    Remember,
    /// Remember it, and start a supervisor.
    RememberAndSupervise,
    Supervise,
    /// Forget it.
    Forget,
    /// Forget it, and ask the process to end.
    ForgetAndStop { pid: i32 },
    /// Start the process.
    Spawn,
    /// Look again in a second.
    Pause,
    /// The supervisor ends.
    End,
}

/// The supervision of k3s: one supervisor at most, which starts the process
/// again as long as it is wanted.
pub open spec fn supervised(s: Supervisor, e: K3sEvent) -> (Supervisor, K3sDo) {
    match e {
        K3sEvent::Boot { wanted } => if wanted && !s.supervising {
            (Supervisor { supervising: true, ..s }, K3sDo::Supervise)
        } else {
            (s, K3sDo::Idle)
        },
        K3sEvent::Enable => if s.supervising {
            (s, K3sDo::Remember)
        } else {
            (Supervisor { supervising: true, ..s }, K3sDo::RememberAndSupervise)
        },
        K3sEvent::Disable => if s.pid > 0 {
            (s, K3sDo::ForgetAndStop { pid: s.pid })
        } else {
            (s, K3sDo::Forget)
        },
        K3sEvent::Look { wanted } => if wanted {
            (s, K3sDo::Spawn)
        } else {
            (Supervisor { supervising: false, ..s }, K3sDo::End)
        },
        K3sEvent::Spawned { pid } => (Supervisor { pid, ..s }, K3sDo::Idle),
        K3sEvent::SpawnFailed => (s, K3sDo::Pause),
        K3sEvent::Exited => (Supervisor { pid: -1i32, ..s }, K3sDo::Pause),
    }
}

impl Supervisor {
    pub fn new() -> (s: Supervisor)
        ensures
            s == (Supervisor { supervising: false, pid: -1i32 }),
    {
        Supervisor { supervising: false, pid: -1 }
    }

    /// Take an event.
    pub fn on(&mut self, e: K3sEvent) -> (d: K3sDo)
        ensures
            supervised(*old(self), e) == (*final(self), d),
    {
        match e {
            K3sEvent::Boot { wanted } => {
                if wanted && !self.supervising {
                    self.supervising = true;
                    K3sDo::Supervise
                } else {
                    K3sDo::Idle
                }
            },
            K3sEvent::Enable => {
                if self.supervising {
                    K3sDo::Remember
                } else {
                    self.supervising = true;
                    K3sDo::RememberAndSupervise
                }
            },
            K3sEvent::Disable => {
                if self.pid > 0 {
                    K3sDo::ForgetAndStop { pid: self.pid }
                } else {
                    K3sDo::Forget
                }
            },
            K3sEvent::Look { wanted } => {
                if wanted {
                    K3sDo::Spawn
                } else {
                    self.supervising = false;
                    K3sDo::End
                }
            },
            K3sEvent::Spawned { pid } => {
                self.pid = pid;
                K3sDo::Idle
            },
            K3sEvent::SpawnFailed => K3sDo::Pause,
            K3sEvent::Exited => {
                self.pid = -1;
                K3sDo::Pause
            },
        }
    }

    /// Whether k3s runs, given whether its process is there.
    pub fn running(&self, alive: bool) -> (r: bool)
        ensures
            r == (self.pid > 0 && alive),
    {
        self.pid > 0 && alive
    }
}

/// A supervisor is started only where none runs, whatever happened before, and
/// while one runs no other is started.
pub proof fn one_supervisor(s: Supervisor, e: K3sEvent)
    ensures
        ({
            let (next, act) = supervised(s, e);
            let starts = act == K3sDo::Supervise || act == K3sDo::RememberAndSupervise;
            &&& starts ==> !s.supervising && next.supervising
            &&& !starts && act != K3sDo::End ==> next.supervising == s.supervising
            &&& act == K3sDo::End ==> !next.supervising
        }),
{
}

/// How k3s is started: with the guest's address in its certificate, where it
/// has one.
pub fn k3s_args(ip: &str) -> (r: Vec<String>)
    ensures
        crate::text::views(r@) == seq![
            "server"@,
            "--write-kubeconfig-mode"@,
            "644"@,
            "--disable"@,
            "traefik"@,
        ] + (if ip@.len() == 0 {
            Seq::empty()
        } else {
            seq!["--tls-san"@, ip@]
        }),
{
    let mut out: Vec<String> = Vec::new();
    push_line(&mut out, owned("server"));
    push_line(&mut out, owned("--write-kubeconfig-mode"));
    push_line(&mut out, owned("644"));
    push_line(&mut out, owned("--disable"));
    push_line(&mut out, owned("traefik"));
    proof {
        reveal_strlit("");
        if ip@.len() == 0 {
            assert(ip@ =~= ""@);
        }
    }
    if !same(ip, "") {
        push_line(&mut out, owned("--tls-san"));
        push_line(&mut out, owned(ip));
    }
    assert(crate::text::views(out@) =~= seq![
        "server"@,
        "--write-kubeconfig-mode"@,
        "644"@,
        "--disable"@,
        "traefik"@,
    ] + (if ip@.len() == 0 {
        Seq::empty()
    } else {
        seq!["--tls-san"@, ip@]
    }));
    out
}

/// k3s is started as long as it is wanted, and looked after by one supervisor;
/// to disable it ends the process that was started, and only one that runs.
pub proof fn k3s_runs_while_it_is_wanted(s: Supervisor, pid: i32)
    requires
        pid > 0,
    ensures
        supervised(s, K3sEvent::Look { wanted: true }).1 == K3sDo::Spawn,
        supervised(s, K3sEvent::Look { wanted: false }).1 == K3sDo::End,
        ({
            let up = supervised(s, K3sEvent::Spawned { pid }).0;
            let gone = supervised(up, K3sEvent::Exited).0;
            &&& up.pid == pid && up.supervising == s.supervising
            &&& supervised(up, K3sEvent::Disable).1 == (K3sDo::ForgetAndStop { pid })
            &&& supervised(gone, K3sEvent::Disable).1 == K3sDo::Forget
            &&& supervised(up, K3sEvent::Exited).1 == K3sDo::Pause
            &&& supervised(supervised(gone, K3sEvent::Disable).0, K3sEvent::Look { wanted: false }).1
                == K3sDo::End
        }),
        ({
            let (on, act) = supervised(s, K3sEvent::Enable);
            &&& on.supervising
            &&& act == (if s.supervising {
                K3sDo::Remember
            } else {
                K3sDo::RememberAndSupervise
            })
            &&& supervised(on, K3sEvent::Enable).1 == K3sDo::Remember
            &&& supervised(on, K3sEvent::Boot { wanted: true }).1 == K3sDo::Idle
        }),
        !s.supervising ==> supervised(s, K3sEvent::Boot { wanted: true }).1 == K3sDo::Supervise,
        supervised(s, K3sEvent::Boot { wanted: false }).1 == K3sDo::Idle,
        supervised(s, K3sEvent::SpawnFailed).1 == K3sDo::Pause,
        ({
            let off = supervised(s, K3sEvent::Look { wanted: false }).0;
            supervised(off, K3sEvent::Enable).1 == K3sDo::RememberAndSupervise
        }),
{
}

/// The line that is found is the first that starts so.
pub proof fn the_first_such_line_is_found(lines: Seq<Seq<char>>, start: Seq<char>, k: int)
    requires
        0 <= k < lines.len(),
        crate::text::has_prefix(lines[k], start),
        forall|j: int| 0 <= j < k ==> !crate::text::has_prefix(#[trigger] lines[j], start),
    ensures
        line_with(lines, start) == Some(lines[k]),
    decreases lines.len(),
{
    if k > 0 {
        let rest = lines.skip(1);
        assert(!crate::text::has_prefix(lines[0], start));
        assert forall|j: int| 0 <= j < k - 1 implies !crate::text::has_prefix(
            #[trigger] rest[j],
            start,
        ) by {
            assert(rest[j] == lines[j + 1]);
        }
        the_first_such_line_is_found(rest, start, k - 1);
    }
}

/// A figure is the second word of its line.
pub proof fn a_figure_is_behind_its_name(lines: Seq<Seq<char>>, name: Seq<char>, k: int, n: u64)
    requires
        0 <= k < lines.len(),
        crate::text::has_prefix(lines[k], name),
        forall|j: int| 0 <= j < k ==> !crate::text::has_prefix(#[trigger] lines[j], name),
        crate::text::words_of(lines[k]).len() >= 2,
        crate::text::words_of(lines[k])[1] == crate::text::decimal(n as nat),
    ensures
        mem_field(lines, name) == n,
{
    the_first_such_line_is_found(lines, name, k);
    crate::text::decimal_reads_back(n as nat);
    assert(crate::text::parse_dec(crate::text::decimal(n as nat), u64::MAX as nat) == Some(
        n as nat,
    ));
}

/// The way out is the first line whose destination is zero and whose gateway is
/// not. The kernel writes the gateway's first byte last.
pub proof fn the_first_default_route_is_taken(lines: Seq<Seq<char>>, k: int)
    requires
        0 <= k < lines.len(),
        gateway_of(lines[k]) is Some,
        forall|j: int| 0 <= j < k ==> gateway_of(#[trigger] lines[j]) is None,
    ensures
        first_gateway(lines) == gateway_of(lines[k]),
        ({
            let w = crate::text::words_of(lines[k]);
            let g = gateway_of(lines[k])->0;
            &&& w.len() >= 3 && w[1] == "00000000"@
            &&& g.len() == 4
            &&& crate::text::hex_number(w[2], u32::MAX as nat) == Some(
                (g[3] * 0x100_0000 + g[2] * 0x1_0000 + g[1] * 0x100 + g[0]) as nat,
            )
            &&& !(g[0] == 0 && g[1] == 0 && g[2] == 0 && g[3] == 0)
        }),
    decreases lines.len(),
{
    if k > 0 {
        let rest = lines.skip(1);
        assert(gateway_of(lines[0]) is None);
        assert forall|j: int| 0 <= j < k - 1 implies gateway_of(#[trigger] rest[j]) is None by {
            assert(rest[j] == lines[j + 1]);
        }
        the_first_default_route_is_taken(rest, k - 1);
        assert(rest[k - 1] == lines[k]);
    }
}

/// Of an output the first 64 KiB are kept, and all of a shorter one.
pub proof fn what_is_kept_of_an_output(bytes: Seq<u8>)
    ensures
        kept(bytes).len() == (if bytes.len() < 65536 {
            bytes.len()
        } else {
            65536
        }),
        forall|i: int| 0 <= i < kept(bytes).len() ==> #[trigger] kept(bytes)[i] == bytes[i],
{
}

/// k3s is started, stopped and asked after by its name; no other service is
/// known. The guest powers off on a shutdown and on nothing else, and runs the
/// command that it was given.
pub proof fn what_is_asked_of_the_agent(req: AgentRequest, d: AgentDo)
    requires
        asks(req, d),
    ensures
        d is PowerOff <==> req is Shutdown,
        d is Health <==> req is Health,
        d is MemStats <==> req is MemStats,
        d is Exec <==> req is Exec,
        req matches AgentRequest::Exec { cmd, args, env, timeout_ms } ==> d == (AgentDo::Exec {
            cmd,
            args,
            env,
            timeout_ms,
        }),
        d is EnableK3s <==> (req matches AgentRequest::ServiceCtl { name, action } && name@ == "k3s"@
            && action is Start),
        d is DisableK3s <==> (req matches AgentRequest::ServiceCtl { name, action } && name@
            == "k3s"@ && action is Stop),
        d is StatusK3s <==> (req matches AgentRequest::ServiceCtl { name, action } && name@
            == "k3s"@ && action is Status),
{
}

} // verus!

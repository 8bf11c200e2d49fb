//! The control socket: one request per connection. Each request becomes a few
//! steps that the daemon performs, and one reply.

use crate::backend::VmState;
use crate::proto::{
    AgentRequest, AgentResponse, DaemonRequest, DaemonResponse, DaemonStatus, Health, InstanceNet, MemStats,
    ShellOpen, StatsView,
};
use crate::text::owned;
use vstd::prelude::*;

verus! {

/// What the daemon does next for a connection.
#[derive(Debug)]
pub enum Task {
    /// Ask the guest's agent.
    Ask(AgentRequest),
    /// Stop the engine.
    Stop { force: bool },
    /// Set the balloon's target.
    SetBalloon { target_mib: u64 },
    /// Open a shell stream to the guest.
    OpenShell(ShellOpen),
    Reply(Reply),
}

/// The answer to a request, and what becomes of the connection.
#[derive(Debug)]
pub struct Reply {
    pub response: DaemonResponse,
    pub after: After,
}

#[derive(Debug, Clone, Copy, PartialEq, Eq, Structural)]
pub enum After {
    /// The connection is done.
    Close,
    /// The daemon exits, once the reply is on the wire.
    Exit,
    /// The connection carries the shell's bytes from here on.
    Bridge,
}

/// What a task came to.
#[derive(Debug)]
pub enum Outcome {
    Answer(Result<AgentResponse, String>),
    Done(Result<(), String>),
}

/// What a status reply says of the daemon and its engine.
#[derive(Debug)]
pub struct Info {
    pub version: String,
    pub pid: u32,
    pub state: VmState,
    pub cpus: u32,
    pub mem_mib: u64,
    pub uptime_secs: u64,
    pub k8s_port: u16,
    pub dns_zone: String,
    pub balloon_target_mib: u64,
    pub max_mib: u64,
    pub host_footprint_mib: u64,
}

/// A connection, between its steps.
#[derive(Debug)]
pub enum Session {
    /// A status request, until the agent's health is known.
    StatusHealth,
    /// A status request, with the health, until its memory is.
    StatusMem(Option<Health>),
    Down,
    Agent,
    Stats,
    Balloon,
    Shell,
    Over,
}

/// The first step of a request.
pub fn begin(req: DaemonRequest) -> (r: (Session, Task))
    ensures
        r == (match req {
            DaemonRequest::Status => (Session::StatusHealth, Task::Ask(AgentRequest::Health)),
            DaemonRequest::Down { force } => (Session::Down, Task::Stop { force }),
            DaemonRequest::Agent { request } => (Session::Agent, Task::Ask(request)),
            DaemonRequest::Stats => (Session::Stats, Task::Ask(AgentRequest::MemStats)),
            DaemonRequest::Balloon { target_mib } => (
                Session::Balloon,
                Task::SetBalloon { target_mib },
            ),
            DaemonRequest::Shell { open } => (Session::Shell, Task::OpenShell(open)),
        }),
{
    match req {
        DaemonRequest::Status => (Session::StatusHealth, Task::Ask(AgentRequest::Health)),
        DaemonRequest::Down { force } => (Session::Down, Task::Stop { force }),
        DaemonRequest::Agent { request } => (Session::Agent, Task::Ask(request)),
        DaemonRequest::Stats => (Session::Stats, Task::Ask(AgentRequest::MemStats)),
        DaemonRequest::Balloon { target_mib } => (
            Session::Balloon,
            Task::SetBalloon { target_mib },
        ),
        DaemonRequest::Shell { open } => (Session::Shell, Task::OpenShell(open)),
    }
}

/// The answer to a line that is no request.
pub fn bad_request(e: &str) -> (r: Reply)
    ensures
        r.after == After::Close,
        r.response matches DaemonResponse::Error { message } && message@ == "bad request: "@ + e@,
{
    Reply {
        response: DaemonResponse::Error { message: crate::text::cat2("bad request: ", e) },
        after: After::Close,
    }
}

pub open spec fn health_in(a: Result<AgentResponse, String>) -> Option<Health> {
    match a {
        Ok(AgentResponse::Health(h)) => Some(h),
        _ => None,
    }
}

pub open spec fn mem_in(a: Result<AgentResponse, String>) -> Option<MemStats> {
    match a {
        Ok(AgentResponse::MemStats(m)) => Some(m),
        _ => None,
    }
}

fn health_of(a: Result<AgentResponse, String>) -> (r: Option<Health>)
    ensures
        r == health_in(a),
{
    match a {
        Ok(AgentResponse::Health(h)) => Some(h),
        _ => None,
    }
}

fn mem_of(a: &Result<AgentResponse, String>) -> (r: Option<MemStats>)
    ensures
        r == mem_in(*a),
{
    match a {
        Ok(AgentResponse::MemStats(m)) => Some(*m),
        _ => None,
    }
}

/// Whether a response reports the daemon's state as it is.
pub open spec fn reports(s: DaemonStatus, i: Info, agent: Option<Health>, mem: Option<MemStats>) -> bool {
    &&& s.daemon_version@ == i.version@
    &&& s.daemon_pid == i.pid
    &&& s.vm_state@ == i.state.text()
    &&& s.backend@ == "vz"@
    &&& s.cpus == i.cpus
    &&& s.mem_mib == i.mem_mib
    &&& s.agent == agent
    &&& s.mem == mem
    &&& s.uptime_secs == i.uptime_secs
    &&& s.net.k8s_port == i.k8s_port
    &&& s.net.dns_zone@ == i.dns_zone@
}

/// The answer to an operation: done, or what went wrong.
pub open spec fn acknowledged(r: Result<(), String>) -> DaemonResponse {
    match r {
        Ok(_) => DaemonResponse::Done,
        Err(message) => DaemonResponse::Error { message },
    }
}

fn acknowledge(r: Result<(), String>) -> (d: DaemonResponse)
    ensures
        d == acknowledged(r),
{
    match r {
        Ok(_) => DaemonResponse::Done,
        Err(message) => DaemonResponse::Error { message },
    }
}

/// Whether a task is the reply.
pub open spec fn replies(t: Task, d: DaemonResponse, after: After) -> bool {
    t is Reply && t->Reply_0.response == d && t->Reply_0.after == after
}

/// What follows a step of a request: the next one, or the reply.
pub open spec fn follows(session: Session, o: Outcome, info: Info, r: (Session, Task)) -> bool {
    match session {
        Session::StatusHealth => r == (
            Session::StatusMem(health_in(o->Answer_0)),
            Task::Ask(AgentRequest::MemStats),
        ),
        Session::StatusMem(h) => r.0 is Over && r.1 is Reply && r.1->Reply_0.after
            == After::Close && (r.1->Reply_0.response matches DaemonResponse::Status(s)
            && reports(s, info, h, mem_in(o->Answer_0))),
        Session::Down => r.0 is Over && replies(r.1, acknowledged(o->Done_0), After::Exit),
        Session::Agent => r.0 is Over && replies(
            r.1,
            match o->Answer_0 {
                Ok(response) => DaemonResponse::Agent { response },
                Err(message) => DaemonResponse::Error { message },
            },
            After::Close,
        ),
        Session::Stats => r.0 is Over && replies(
            r.1,
            DaemonResponse::Stats(
                StatsView {
                    guest: mem_in(o->Answer_0),
                    balloon_target_mib: info.balloon_target_mib,
                    max_mib: info.max_mib,
                    host_footprint_mib: info.host_footprint_mib,
                },
            ),
            After::Close,
        ),
        Session::Balloon => r.0 is Over && replies(r.1, acknowledged(o->Done_0), After::Close),
        Session::Shell => r.0 is Over && (match o->Done_0 {
            Ok(_) => replies(r.1, DaemonResponse::ShellStarted, After::Bridge),
            Err(message) => replies(
                r.1,
                DaemonResponse::Error { message },
                After::Close,
            ),
        }),
        Session::Over => false,
    }
}

/// The next step of a request, from what the last one came to. A status says
/// what is known: an agent that does not answer is left out of it.
pub fn step(session: Session, o: Outcome, info: &Info) -> (r: (Session, Task))
    requires
        session !is Over,
        session is Down || session is Balloon || session is Shell ==> o is Done,
        session is StatusHealth || session is StatusMem || session is Agent || session is Stats ==> o is Answer,
    ensures
        follows(session, o, *info, r),
        // A request ends with its reply. The daemon exits only behind a `down`,
        // and a connection becomes a shell only where the shell came up.
        r.0 is Over <==> r.1 is Reply,
        r.1 is Reply && r.1->Reply_0.after == After::Exit ==> session is Down,
        r.1 is Reply && r.1->Reply_0.after == After::Bridge ==> session is Shell && o->Done_0 is Ok,
{
    match (session, o) {
        (Session::StatusHealth, Outcome::Answer(a)) => (
            Session::StatusMem(health_of(a)),
            Task::Ask(AgentRequest::MemStats),
        ),
        (Session::StatusMem(agent), Outcome::Answer(a)) => {
            let status = DaemonStatus {
                daemon_version: owned(info.version.as_str()),
                daemon_pid: info.pid,
                vm_state: owned(info.state.name()),
                backend: owned("vz"),
                cpus: info.cpus,
                mem_mib: info.mem_mib,
                agent,
                mem: mem_of(&a),
                uptime_secs: info.uptime_secs,
                net: InstanceNet { k8s_port: info.k8s_port, dns_zone: owned(info.dns_zone.as_str()) },
            };
            (
                Session::Over,
                Task::Reply(Reply { response: DaemonResponse::Status(status), after: After::Close }),
            )
        },
        (Session::Down, Outcome::Done(d)) => (
            Session::Over,
            Task::Reply(Reply { response: acknowledge(d), after: After::Exit }),
        ),
        (Session::Agent, Outcome::Answer(a)) => {
            let response: DaemonResponse = match a {
                Ok(response) => DaemonResponse::Agent { response },
                Err(message) => DaemonResponse::Error { message },
            };
            (Session::Over, Task::Reply(Reply { response, after: After::Close }))
        },
        (Session::Stats, Outcome::Answer(a)) => {
            let view = StatsView {
                guest: mem_of(&a),
                balloon_target_mib: info.balloon_target_mib,
                max_mib: info.max_mib,
                host_footprint_mib: info.host_footprint_mib,
            };
            (
                Session::Over,
                Task::Reply(Reply { response: DaemonResponse::Stats(view), after: After::Close }),
            )
        },
        (Session::Balloon, Outcome::Done(d)) => (
            Session::Over,
            Task::Reply(Reply { response: acknowledge(d), after: After::Close }),
        ),
        (_, Outcome::Done(Ok(_))) => (
            Session::Over,
            Task::Reply(Reply { response: DaemonResponse::ShellStarted, after: After::Bridge }),
        ),
        (_, Outcome::Done(Err(message))) => (
            Session::Over,
            Task::Reply(Reply { response: DaemonResponse::Error { message }, after: After::Close }),
        ),
        (_, Outcome::Answer(_)) => (
            Session::Over,
            Task::Reply(Reply { response: DaemonResponse::Done, after: After::Close }),
        ),
    }
}

/// What went wrong is told, whatever was asked; what was done is not told as an
/// error.
pub proof fn a_failure_is_told(session: Session, message: String, info: Info, r: (Session, Task))
    requires
        session is Down || session is Balloon || session is Shell,
        follows(session, Outcome::Done(Err(message)), info, r),
    ensures
        r.1 is Reply,
        r.1->Reply_0.response matches DaemonResponse::Error { message: m } && m == message,
        r.1->Reply_0.after != After::Bridge,
{
}

/// The daemon exits behind a `down` and behind nothing else, also where the
/// engine did not stop; a connection carries a shell from the reply on that
/// says so.
pub proof fn what_becomes_of_a_connection(session: Session, o: Outcome, info: Info, r: (Session, Task))
    requires
        follows(session, o, info, r),
        session is Down || session is Balloon || session is Shell ==> o is Done,
    ensures
        session is Down <==> r.1 is Reply && r.1->Reply_0.after == After::Exit,
        r.1 is Reply && r.1->Reply_0.after == After::Bridge <==> r.1 is Reply && (
        r.1->Reply_0.response is ShellStarted),
        (session is Shell && o->Done_0 is Ok) <==> r.1 is Reply && r.1->Reply_0.after
            == After::Bridge,
        (session is Down || session is Balloon) && o->Done_0 is Ok ==> r.1 is Reply
            && r.1->Reply_0.response is Done,
{
}

/// A status is a health question, a memory question and a reply, which says
/// what each came to.
pub proof fn what_a_status_says(
    health: Result<AgentResponse, String>,
    memory: Result<AgentResponse, String>,
    info: Info,
    first: (Session, Task),
    second: (Session, Task),
)
    requires
        follows(Session::StatusHealth, Outcome::Answer(health), info, first),
        follows(first.0, Outcome::Answer(memory), info, second),
    ensures
        first.1 == Task::Ask(AgentRequest::MemStats),
        second.1 is Reply && second.1->Reply_0.response is Status,
        ({
            let s = second.1->Reply_0.response->Status_0;
            &&& health matches Ok(AgentResponse::Health(h)) ==> s.agent == Some(h)
            &&& health is Err ==> s.agent is None
            &&& memory matches Ok(AgentResponse::MemStats(m)) ==> s.mem == Some(m)
            &&& memory is Err ==> s.mem is None
            &&& s.daemon_pid == info.pid && s.daemon_version@ == info.version@
            &&& s.cpus == info.cpus && s.mem_mib == info.mem_mib
            &&& s.uptime_secs == info.uptime_secs
            &&& s.net.k8s_port == info.k8s_port && s.net.dns_zone@ == info.dns_zone@
            &&& s.vm_state@ == info.state.text()
        }),
{
}

/// An agent's answer is handed on as it is, and so is what went wrong with it.
pub proof fn an_answer_is_handed_on(a: Result<AgentResponse, String>, info: Info, r: (Session, Task))
    requires
        follows(Session::Agent, Outcome::Answer(a), info, r),
    ensures
        r.1 is Reply && r.1->Reply_0.after == After::Close,
        a matches Ok(x) ==> (r.1->Reply_0.response matches DaemonResponse::Agent { response }
            && response == x),
        a matches Err(x) ==> (r.1->Reply_0.response matches DaemonResponse::Error { message }
            && message == x),
{
}

/// The figures are told as they are, also where the guest does not answer.
pub proof fn what_the_figures_say(a: Result<AgentResponse, String>, info: Info, r: (Session, Task))
    requires
        follows(Session::Stats, Outcome::Answer(a), info, r),
    ensures
        r.1 is Reply && r.1->Reply_0.response is Stats,
        ({
            let s = r.1->Reply_0.response->Stats_0;
            &&& a matches Ok(AgentResponse::MemStats(m)) ==> s.guest == Some(m)
            &&& a is Err ==> s.guest is None
            &&& s.balloon_target_mib == info.balloon_target_mib
            &&& s.max_mib == info.max_mib
            &&& s.host_footprint_mib == info.host_footprint_mib
        }),
{
}

} // verus!

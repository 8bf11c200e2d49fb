//! The protocols between host and guest agent, and between client and daemon:
//! JSON lines, one request and one response per connection.

use crate::double::Double;
use vstd::prelude::*;

verus! {

/// Bumped on any wire change.
pub const PROTO_VERSION: u32 = 1;

/// One request line, one response line per connection.
pub const VSOCK_PORT_CONTROL: u32 = 1024;

/// On connect one line that opens the shell, then a raw byte stream.
pub const VSOCK_PORT_SHELL: u32 = 1025;

/// Stream proxy to the guest's container engine socket.
pub const VSOCK_PORT_DOCKER: u32 = 2375;

/// Stream proxy to the guest's containerd socket.
pub const VSOCK_PORT_CONTAINERD: u32 = 2376;

/// UDP port on the host where the daemon answers relayed DNS queries.
pub const HOST_DNS_UDP_PORT: u16 = 42053;

/// How long a command may run where a request does not say.
pub const DEFAULT_EXEC_TIMEOUT_MS: u64 = 30000;

/// A request to the guest's agent.
#[derive(Debug)]
pub enum AgentRequest {
    Health,
    MemStats,
    Exec { cmd: String, args: Vec<String>, env: Vec<(String, String)>, timeout_ms: u64 },
    /// Power off the guest cleanly.
    Shutdown,
    /// Manage an agent-supervised guest service (currently: "k3s").
    ServiceCtl { name: String, action: ServiceAction },
}

#[derive(Debug, Clone, Copy, PartialEq, Eq, Structural)]
pub enum ServiceAction {
    /// Start now and on every boot (persisted).
    Start,
    /// Stop now and stay off (persisted).
    Stop,
    Status,
}

/// The agent's answer.
#[derive(Debug)]
pub enum AgentResponse {
    Health(Health),
    MemStats(MemStats),
    Exec(ExecResult),
    Service { running: bool, enabled: bool },
    Done,
    Error { message: String },
}

#[derive(Debug)]
pub struct Health {
    pub proto_version: u32,
    pub agent_version: String,
    pub kernel: String,
    pub uptime_secs: u64,
    /// Guest eth0 IPv4 address.
    pub ip: Option<String>,
}

/// Guest memory signals. Pressure is a percentage.
#[derive(Debug, Clone, Copy, PartialEq, Eq, Structural)]
pub struct MemStats {
    pub total_kib: u64,
    pub free_kib: u64,
    pub available_kib: u64,
    pub cached_kib: u64,
    pub psi_some_avg10: Option<Double>,
    pub psi_full_avg10: Option<Double>,
}

#[derive(Debug)]
pub struct ExecResult {
    pub exit_code: i32,
    /// First 64 KiB of stdout.
    pub stdout: String,
    /// First 64 KiB of stderr.
    pub stderr: String,
    pub timed_out: bool,
}

/// A request to the daemon.
#[derive(Debug)]
pub enum DaemonRequest {
    Status,
    /// Stop the engine and exit the daemon.
    Down { force: bool },
    /// Proxy a request to the guest agent.
    Agent { request: AgentRequest },
    /// Upgrade the connection to a raw shell byte stream.
    Shell { open: ShellOpen },
    /// Set the balloon target (guest-visible memory, MiB).
    Balloon { target_mib: u64 },
    /// Live memory stats.
    Stats,
}

/// The daemon's answer.
#[derive(Debug)]
pub enum DaemonResponse {
    Status(DaemonStatus),
    Agent { response: AgentResponse },
    /// Shell accepted: the stream is now raw bytes both ways.
    ShellStarted,
    Stats(StatsView),
    Done,
    Error { message: String },
}

#[derive(Debug)]
pub struct DaemonStatus {
    pub daemon_version: String,
    pub daemon_pid: u32,
    pub vm_state: String,
    pub backend: String,
    pub cpus: u32,
    pub mem_mib: u64,
    pub agent: Option<Health>,
    pub mem: Option<MemStats>,
    pub uptime_secs: u64,
    pub net: InstanceNet,
}

/// Effective network configuration of an instance.
#[derive(Debug)]
pub struct InstanceNet {
    pub k8s_port: u16,
    pub dns_zone: String,
}

impl Default for InstanceNet {
    fn default() -> (n: InstanceNet)
        ensures
            n.k8s_port == 6443,
            n.dns_zone@ == "nebula.local"@,
    {
        InstanceNet { k8s_port: 6443, dns_zone: crate::text::owned("nebula.local") }
    }
}

#[derive(Debug, Clone, Copy, PartialEq, Eq, Structural)]
pub struct StatsView {
    pub guest: Option<MemStats>,
    /// Memory that the guest may keep (balloon target), MiB.
    pub balloon_target_mib: u64,
    /// Configured ceiling, MiB.
    pub max_mib: u64,
    /// What the host charges the VM for, MiB.
    pub host_footprint_mib: u64,
}

/// First line sent by the client on the shell stream.
#[derive(Debug)]
pub struct ShellOpen {
    pub cmd: String,
    pub args: Vec<String>,
    pub cols: u16,
    pub rows: u16,
}

impl ShellOpen {
    /// The shell that is opened where a request names none.
    pub fn default_shell() -> (s: String)
        ensures
            s@ == "/bin/sh"@,
    {
        crate::text::owned("/bin/sh")
    }
}

} // verus!

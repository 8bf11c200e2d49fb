//! Running the engine at login, and the environment of tools that are run
//! against it for a single invocation.

use crate::paths::{join, joined_path};
use crate::text::{cat2, cat3, cat5, decimal_str, owned, push_line};
use vstd::prelude::*;

verus! {

/// What launchd calls the engine.
pub const LABEL: &'static str = "dev.nebula.nebulad";

/// Where launchd looks for it.
pub fn plist_path(home: &str) -> (p: String)
    ensures
        p@ == joined_path(
            joined_path(home@, "Library/LaunchAgents"@),
            "dev.nebula.nebulad.plist"@,
        ),
{
    join(join(home, "Library/LaunchAgents").as_str(), "dev.nebula.nebulad.plist")
}

/// What launchd is told: start the engine at login, and again where it fails.
pub fn plist(nebulad: &str, logs: &str) -> (s: String)
    ensures
        s@ == "<?xml version=\"1.0\" encoding=\"UTF-8\"?>\n<!DOCTYPE plist PUBLIC \"-//Apple//DTD PLIST 1.0//EN\" \"http://www.apple.com/DTDs/PropertyList-1.0.dtd\">\n<plist version=\"1.0\">\n<dict>\n    <key>Label</key><string>dev.nebula.nebulad</string>\n    <key>ProgramArguments</key>\n    <array><string>"@ + nebulad@ + "</string></array>\n    <key>RunAtLoad</key><true/>\n    <key>KeepAlive</key>\n    <dict><key>SuccessfulExit</key><false/></dict>\n    <key>StandardOutPath</key><string>"@ + logs@ + "/launchd.out.log</string>\n    <key>StandardErrorPath</key><string>"@ + logs@ + "/launchd.err.log</string>\n</dict>\n</plist>\n"@,
{
    let mut s: String = cat5("<?xml version=\"1.0\" encoding=\"UTF-8\"?>\n<!DOCTYPE plist PUBLIC \"-//Apple//DTD PLIST 1.0//EN\" \"http://www.apple.com/DTDs/PropertyList-1.0.dtd\">\n<plist version=\"1.0\">\n<dict>\n    <key>Label</key><string>dev.nebula.nebulad</string>\n    <key>ProgramArguments</key>\n    <array><string>", nebulad, "</string></array>\n    <key>RunAtLoad</key><true/>\n    <key>KeepAlive</key>\n    <dict><key>SuccessfulExit</key><false/></dict>\n    <key>StandardOutPath</key><string>", logs, "/launchd.out.log</string>\n    <key>StandardErrorPath</key><string>");
    s.append(logs);
    s.append("/launchd.err.log</string>\n</dict>\n</plist>\n");
    s
}

/// The login session of a user.
pub fn domain(uid: u32) -> (s: String)
    ensures
        s@ == "gui/"@ + crate::text::decimal(uid as nat),
{
    cat2("gui/", decimal_str(uid as u64).as_str())
}

/// The engine in the login session of a user.
pub fn service(uid: u32) -> (s: String)
    ensures
        s@ == "gui/"@ + crate::text::decimal(uid as nat) + "/dev.nebula.nebulad"@,
{
    cat3("gui/", decimal_str(uid as u64).as_str(), "/dev.nebula.nebulad")
}

/// What is said of the engine at login, and of the engine now.
pub fn status(installed: bool, loaded: bool, running: bool) -> (r: Vec<String>)
    ensures
        crate::text::views(r@) == seq![
            "autostart: "@ + (if installed && loaded {
                "enabled (loaded)"@
            } else if installed {
                "installed but not loaded (run `nebula autostart enable`)"@
            } else {
                "disabled"@
            }),
            "engine:    "@ + (if running {
                "running"@
            } else {
                "stopped"@
            }),
        ],
{
    let first: &str = if installed && loaded {
        "enabled (loaded)"
    } else if installed {
        "installed but not loaded (run `nebula autostart enable`)"
    } else {
        "disabled"
    };
    let second: &str = if running {
        "running"
    } else {
        "stopped"
    };
    let mut out: Vec<String> = Vec::new();
    push_line(&mut out, cat2("autostart: ", first));
    push_line(&mut out, cat2("engine:    ", second));
    assert(crate::text::views(out@) =~= seq!["autostart: "@ + first@, "engine:    "@ + second@]);
    out
}

/// How a tool is run: its name, its arguments, and the variable that points it
/// at the engine.
#[derive(Debug)]
pub struct Invocation {
    pub tool: String,
    pub args: Vec<String>,
    pub var: String,
    pub value: String,
}

/// A tool is run against a running engine only, with the arguments as they were
/// given.
pub open spec fn one_off(
    r: Result<Invocation, String>,
    running: bool,
    tool: Seq<char>,
    args: Vec<String>,
    var: Seq<char>,
    value: Seq<char>,
) -> bool {
    match r {
        Ok(i) => running && i.tool@ == tool && i.args == args && i.var@ == var && i.value@ == value,
        Err(e) => !running && e@ == "the Nebula engine is not running — start it with: nebula up"@,
    }
}

fn invoke(running: bool, tool: &str, args: Vec<String>, var: &str, value: String) -> (r: Result<
    Invocation,
    String,
>)
    ensures
        one_off(r, running, tool@, args, var@, value@),
{
    if running {
        Ok(Invocation { tool: owned(tool), args, var: owned(var), value })
    } else {
        Err(owned("the Nebula engine is not running — start it with: nebula up"))
    }
}

/// Run docker against the engine; the user's own contexts do not change.
pub fn docker(args: Vec<String>, running: bool, home: &str) -> (r: Result<Invocation, String>)
    ensures
        one_off(
            r,
            running,
            "docker"@,
            args,
            "DOCKER_HOST"@,
            "unix://"@ + joined_path(home@, "run/docker.sock"@),
        ),
{
    let host: String = cat2("unix://", join(home, "run/docker.sock").as_str());
    invoke(running, "docker", args, "DOCKER_HOST", host)
}

/// Run kubectl against the engine's cluster.
pub fn kubectl(args: Vec<String>, running: bool, kubeconfig: &str) -> (r: Result<Invocation, String>)
    ensures
        one_off(r, running, "kubectl"@, args, "KUBECONFIG"@, kubeconfig@),
{
    invoke(running, "kubectl", args, "KUBECONFIG", owned(kubeconfig))
}

/// Run helm against the engine's cluster.
pub fn helm(args: Vec<String>, running: bool, kubeconfig: &str) -> (r: Result<Invocation, String>)
    ensures
        one_off(r, running, "helm"@, args, "KUBECONFIG"@, kubeconfig@),
{
    invoke(running, "helm", args, "KUBECONFIG", owned(kubeconfig))
}

/// A tool could not be run.
pub fn tool_missing(tool: &str) -> (s: String)
    ensures
        s@ == "could not run `"@ + tool@ + "` — is it installed and on your PATH?"@,
{
    cat3("could not run `", tool, "` — is it installed and on your PATH?")
}

/// A tool is run where the engine is, and only there, with what it was given.
pub proof fn a_tool_needs_the_engine(
    r: Result<Invocation, String>,
    running: bool,
    tool: Seq<char>,
    args: Vec<String>,
    var: Seq<char>,
    value: Seq<char>,
)
    requires
        one_off(r, running, tool, args, var, value),
    ensures
        r is Ok <==> running,
        r matches Ok(i) ==> i.tool@ == tool && crate::text::views(i.args@) == crate::text::views(args@)
            && i.var@ == var && i.value@ == value,
        r matches Err(e) ==> e@ == "the Nebula engine is not running — start it with: nebula up"@,
{
}

} // verus!

//! Building a vessel's root file system from a container image.
//!
//! The daemon drives the engine's REST API: pull if absent, create a stopped
//! container, export its file system to a staging directory that the guest
//! sees, then run the build script inside the engine, where mkfs lives. The
//! client does the same with the host's docker binary.

use crate::bytes::{from_utf8_lossy, lossy_text};
use crate::doc::{parse_json, text_field, Doc};
use crate::paths::{join, joined_path};
use crate::proto::{AgentResponse, ExecResult};
use crate::text::{cat2, cat3, cat4, cat5, decimal_str, owned, replace_char, tail_of_bytes, trim};
use vstd::prelude::*;
use vstd::string::StringExecFns;

verus! {

/// How long the build script may run.
pub const BUILD_TIMEOUT_MS: u64 = 900000;

/// How long its answer is waited for.
pub const BUILD_READ_SECS: u64 = 910;

pub const STATUS_OK: u16 = 200;

pub const STATUS_CREATED: u16 = 201;

/// An image reference in a query: what a query gives a meaning to is escaped;
/// `:` and `/` are accepted as they are.
pub open spec fn query_escaped(s: Seq<char>) -> Seq<char> {
    crate::text::replaced(
        crate::text::replaced(crate::text::replaced(s, '%', "%25"@), '&', "%26"@),
        ' ',
        "%20"@,
    )
}

pub fn urlish(s: &str) -> (r: String)
    ensures
        r@ == query_escaped(s@),
{
    let a: String = replace_char(s, '%', "%25");
    let b: String = replace_char(a.as_str(), '&', "%26");
    replace_char(b.as_str(), ' ', "%20")
}

/// The staging directory of a build.
pub open spec fn stage_of(host_home: Seq<char>, name: Seq<char>) -> Seq<char> {
    joined_path(joined_path(host_home, ".nebula-image-build"@), name)
}

pub fn stage_dir(host_home: &str, name: &str) -> (p: String)
    ensures
        p@ == stage_of(host_home@, name@),
{
    join(join(host_home, ".nebula-image-build").as_str(), name)
}

/// What the scripts set before they work.
pub open spec fn script_head(stage: Seq<char>, rootfs_mb: u64, data_mb: int, name: Seq<char>) -> Seq<
    char,
> {
    "set -e\nSTAGE='"@ + stage + "'; SIZE_MB="@ + crate::text::decimal(rootfs_mb as nat)
        + "; DATA_MB="@ + crate::text::decimal(data_mb as nat)
        + "\nBUILD=/var/lib/nebula/img-build-"@ + name
}

fn make_head(stage: &str, rootfs_mb: u64, data_mb: u64, name: &str) -> (s: String)
    ensures
        s@ == script_head(stage@, rootfs_mb, data_mb as int, name@),
{
    let mut s: String = cat5(
        "set -e\nSTAGE='",
        stage,
        "'; SIZE_MB=",
        decimal_str(rootfs_mb).as_str(),
        "; DATA_MB=",
    );
    s.append(decimal_str(data_mb).as_str());
    s.append("\nBUILD=/var/lib/nebula/img-build-");
    s.append(name);
    s
}

/// The daemon's build script: unpack the export, add the guest's own binaries,
/// and make the root and data images.
pub open spec fn build_script(stage: Seq<char>, rootfs_mb: u64, data_gib: u64, name: Seq<char>) -> Seq<
    char,
> {
    script_head(stage, rootfs_mb, data_gib * 1024, name)
        + "\nrm -rf \"$BUILD\"; mkdir -p \"$BUILD/root\"\ntar -xf \"$STAGE/export.tar\" -C \"$BUILD/root\"\ncp /sbin/nebula-init \"$BUILD/root/sbin/nebula-init\"\ncp /usr/bin/vessel-agent \"$BUILD/root/usr/bin/vessel-agent\" 2>/dev/null || { mkdir -p \"$BUILD/root/usr/bin\"; cp /usr/bin/vessel-agent \"$BUILD/root/usr/bin/vessel-agent\"; }\nmkdir -p \"$BUILD/root/var/lib/nebula\" \"$BUILD/root/run\" \"$BUILD/root/tmp\" \"$BUILD/root/proc\" \"$BUILD/root/sys\" \"$BUILD/root/dev\"\ntruncate -s ${SIZE_MB}M \"$BUILD/rootfs.img\"\nmkfs.ext4 -q -L nebula-root -d \"$BUILD/root\" \"$BUILD/rootfs.img\"\ntruncate -s ${DATA_MB}M \"$BUILD/data.img\"\nmkfs.ext4 -q -L nebula-data \"$BUILD/data.img\"\nmv \"$BUILD/rootfs.img\" \"$STAGE/rootfs.img\"\nmv \"$BUILD/data.img\" \"$STAGE/data.img\"\nrm -rf \"$BUILD\"\n"@
}

/// The client's build script.
pub open spec fn client_script(stage: Seq<char>, rootfs_mb: u64, data_gib: u64, name: Seq<char>) -> Seq<
    char,
> {
    script_head(stage, rootfs_mb, data_gib * 1024, name)
        + "\nrm -rf \"$BUILD\"; mkdir -p \"$BUILD/root\"\ntar -xf \"$STAGE/export.tar\" -C \"$BUILD/root\"\n# Inject Nebula's static guest binaries so any image boots managed.\ncp /sbin/nebula-init \"$BUILD/root/sbin/nebula-init\"\ncp /usr/bin/vessel-agent \"$BUILD/root/usr/bin/vessel-agent\" 2>/dev/null || { mkdir -p \"$BUILD/root/usr/bin\"; cp /usr/bin/vessel-agent \"$BUILD/root/usr/bin/vessel-agent\"; }\nmkdir -p \"$BUILD/root/var/lib/nebula\" \"$BUILD/root/run\" \"$BUILD/root/tmp\" \"$BUILD/root/proc\" \"$BUILD/root/sys\" \"$BUILD/root/dev\"\ntruncate -s ${SIZE_MB}M \"$BUILD/rootfs.img\"\nmkfs.ext4 -q -L nebula-root -d \"$BUILD/root\" \"$BUILD/rootfs.img\"\n# Pre-format the data disk here too: foreign images may lack e2fsprogs.\ntruncate -s ${DATA_MB}M \"$BUILD/data.img\"\nmkfs.ext4 -q -L nebula-data \"$BUILD/data.img\"\nmv \"$BUILD/rootfs.img\" \"$STAGE/rootfs.img\"\nmv \"$BUILD/data.img\" \"$STAGE/data.img\"\nrm -rf \"$BUILD\"\n"@
}

fn make_script(stage: &str, rootfs_mb: u64, data_gib: u64, name: &str) -> (s: String)
    requires
        data_gib * 1024 <= u64::MAX,
    ensures
        s@ == build_script(stage@, rootfs_mb, data_gib, name@),
{
    let mut s: String = make_head(stage, rootfs_mb, data_gib * 1024, name);
    s.append(
        "\nrm -rf \"$BUILD\"; mkdir -p \"$BUILD/root\"\ntar -xf \"$STAGE/export.tar\" -C \"$BUILD/root\"\ncp /sbin/nebula-init \"$BUILD/root/sbin/nebula-init\"\ncp /usr/bin/vessel-agent \"$BUILD/root/usr/bin/vessel-agent\" 2>/dev/null || { mkdir -p \"$BUILD/root/usr/bin\"; cp /usr/bin/vessel-agent \"$BUILD/root/usr/bin/vessel-agent\"; }\nmkdir -p \"$BUILD/root/var/lib/nebula\" \"$BUILD/root/run\" \"$BUILD/root/tmp\" \"$BUILD/root/proc\" \"$BUILD/root/sys\" \"$BUILD/root/dev\"\ntruncate -s ${SIZE_MB}M \"$BUILD/rootfs.img\"\nmkfs.ext4 -q -L nebula-root -d \"$BUILD/root\" \"$BUILD/rootfs.img\"\ntruncate -s ${DATA_MB}M \"$BUILD/data.img\"\nmkfs.ext4 -q -L nebula-data \"$BUILD/data.img\"\nmv \"$BUILD/rootfs.img\" \"$STAGE/rootfs.img\"\nmv \"$BUILD/data.img\" \"$STAGE/data.img\"\nrm -rf \"$BUILD\"\n",
    );
    s
}

fn make_client_script(stage: &str, rootfs_mb: u64, data_gib: u64, name: &str) -> (s: String)
    requires
        data_gib * 1024 <= u64::MAX,
    ensures
        s@ == client_script(stage@, rootfs_mb, data_gib, name@),
{
    let mut s: String = make_head(stage, rootfs_mb, data_gib * 1024, name);
    s.append(
        "\nrm -rf \"$BUILD\"; mkdir -p \"$BUILD/root\"\ntar -xf \"$STAGE/export.tar\" -C \"$BUILD/root\"\n# Inject Nebula's static guest binaries so any image boots managed.\ncp /sbin/nebula-init \"$BUILD/root/sbin/nebula-init\"\ncp /usr/bin/vessel-agent \"$BUILD/root/usr/bin/vessel-agent\" 2>/dev/null || { mkdir -p \"$BUILD/root/usr/bin\"; cp /usr/bin/vessel-agent \"$BUILD/root/usr/bin/vessel-agent\"; }\nmkdir -p \"$BUILD/root/var/lib/nebula\" \"$BUILD/root/run\" \"$BUILD/root/tmp\" \"$BUILD/root/proc\" \"$BUILD/root/sys\" \"$BUILD/root/dev\"\ntruncate -s ${SIZE_MB}M \"$BUILD/rootfs.img\"\nmkfs.ext4 -q -L nebula-root -d \"$BUILD/root\" \"$BUILD/rootfs.img\"\n# Pre-format the data disk here too: foreign images may lack e2fsprogs.\ntruncate -s ${DATA_MB}M \"$BUILD/data.img\"\nmkfs.ext4 -q -L nebula-data \"$BUILD/data.img\"\nmv \"$BUILD/rootfs.img\" \"$STAGE/rootfs.img\"\nmv \"$BUILD/data.img\" \"$STAGE/data.img\"\nrm -rf \"$BUILD\"\n",
    );
    s
}

/// What is to be built.
#[derive(Debug)]
pub struct ImageBuild {
    pub image: String,
    pub name: String,
    pub stage: String,
    pub rootfs_mb: u64,
    pub data_gib: u64,
}

/// A build, between its steps.
#[derive(Debug)]
pub enum BuildState {
    /// Whether the engine has the image.
    Inspect,
    Pull,
    /// Whether it has the image now.
    Recheck,
    Create,
    /// The export of a container.
    Export { cid: String },
    /// The container goes, whatever came of its export.
    Remove { failed: Option<String> },
    Build,
    Install,
    Over,
}

/// What to do next.
#[derive(Debug)]
pub enum BuildAction {
    Get { path: String },
    /// A POST without a body.
    Post { path: String },
    /// Create a stopped container of the image.
    CreateContainer,
    /// Stream a container's file system to the stage's `export.tar`.
    Export { path: String },
    Delete { path: String },
    /// Run a script in the engine.
    Run { script: String },
    /// Move the images into the vessel's directory.
    Install,
    /// The end, and whether the stage is removed before it.
    End { result: Result<(), String>, clean: bool },
}

/// What a step came to.
#[derive(Debug)]
pub enum BuildEvent {
    /// An answer: its status as a number and as a text, and its body.
    Answer { status: u16, text: String, body: Vec<u8> },
    /// The request failed, or the answer could not be read.
    Failed(String),
    /// What came of a stream.
    Streamed(Result<(), String>),
    /// What the agent said of the script, and how that is written out.
    Ran { response: AgentResponse, written: String },
    /// The images are in place.
    Installed,
}

pub open spec fn image_path(image: Seq<char>) -> Seq<char> {
    "/v1.43/images/"@ + image + "/json"@
}

pub open spec fn pull_path(image: Seq<char>) -> Seq<char> {
    "/v1.43/images/create?fromImage="@ + query_escaped(image)
}

pub open spec fn container_path(cid: Seq<char>) -> Seq<char> {
    "/v1.43/containers/"@ + cid
}

/// The id of a container that the engine created.
pub open spec fn created_id(body: Seq<u8>) -> Result<Seq<char>, Seq<char>> {
    match crate::doc::json_text(body) {
        Ok(d) => match crate::doc::text_of(crate::doc::field(d, "Id"@)) {
            Some(id) => Ok(id),
            None => Err("docker create returned no Id"@),
        },
        Err(e) => Err(e),
    }
}

/// Whether an action ends the build with that text.
pub open spec fn fails(a: BuildAction, text: Seq<char>, clean: bool) -> bool {
    match a {
        BuildAction::End { result: Err(e), clean: c } => e@ == text && c == clean,
        _ => false,
    }
}

fn fail(text: String, clean: bool) -> (a: BuildAction)
    ensures
        fails(a, text@, clean),
{
    BuildAction::End { result: Err(text), clean }
}

/// The id in the body of the engine's answer.
pub fn container_id(d: &Doc) -> (r: Option<String>)
    ensures
        crate::text::opt_view(r) == crate::doc::text_of(crate::doc::field(d@, "Id"@)),
{
    text_field(d, "Id")
}

fn read_id(body: &Vec<u8>) -> (r: Result<String, String>)
    ensures
        match r {
            Ok(id) => created_id(body@) == Ok::<Seq<char>, Seq<char>>(id@),
            Err(e) => created_id(body@) == Err::<Seq<char>, Seq<char>>(e@),
        },
{
    match parse_json(body.as_slice()) {
        Ok(d) => match container_id(&d) {
            Some(id) => Ok(id),
            None => Err(owned("docker create returned no Id")),
        },
        Err(e) => Err(e),
    }
}

impl ImageBuild {
    /// The first step.
    pub fn begin(&self) -> (r: (BuildState, BuildAction))
        ensures
            r.0 is Inspect,
            r.1 matches BuildAction::Get { path } && path@ == image_path(self.image@),
    {
        (
            BuildState::Inspect,
            BuildAction::Get { path: cat3("/v1.43/images/", self.image.as_str(), "/json") },
        )
    }

    /// What follows a step of the build.
    pub open spec fn goes_on(self, state: BuildState, e: BuildEvent, r: (BuildState, BuildAction)) -> bool {
        match (state, e) {
            // A request that fails ends the build; but the container goes
            // first, once there is one, whatever came of it.
            (BuildState::Remove { failed: None }, _) => r.0 is Build && (
            r.1 matches BuildAction::Run { script } && script@ == build_script(
                self.stage@,
                self.rootfs_mb,
                self.data_gib,
                self.name@,
            )),
            (BuildState::Remove { failed: Some(t) }, _) => r.0 is Over && fails(r.1, t@, true),
            (BuildState::Export { cid }, BuildEvent::Streamed(s)) => (
            r.1 matches BuildAction::Delete { path } && path@ == container_path(cid@))
                && r.0 == (BuildState::Remove {
                failed: match s {
                    Ok(_) => None::<String>,
                    Err(t) => Some(t),
                },
            }),
            (_, BuildEvent::Failed(t)) => r.0 is Over && fails(r.1, t@, false),
            (BuildState::Inspect, BuildEvent::Answer { status, text, body }) => if status
                == STATUS_OK {
                r.0 is Create && r.1 is CreateContainer
            } else {
                r.0 is Pull && (r.1 matches BuildAction::Post { path } && path@ == pull_path(
                    self.image@,
                ))
            },
            (BuildState::Pull, BuildEvent::Answer { status, text, body }) => if status
                == STATUS_OK {
                r.0 is Recheck && (r.1 matches BuildAction::Get { path } && path@ == image_path(
                    self.image@,
                ))
            } else {
                r.0 is Over && fails(
                    r.1,
                    "image `"@ + self.image@ + "` could not be pulled (HTTP "@ + text@ + "): "@
                        + crate::text::utf8_tail(
                        crate::text::trimmed(lossy_text(body@)),
                        300,
                    ),
                    true,
                )
            },
            (BuildState::Recheck, BuildEvent::Answer { status, text, body }) => if status
                == STATUS_OK {
                r.0 is Create && r.1 is CreateContainer
            } else {
                r.0 is Over && fails(
                    r.1,
                    "image `"@ + self.image@ + "` is not available after pull"@,
                    true,
                )
            },
            (BuildState::Create, BuildEvent::Answer { status, text, body }) => if status
                != STATUS_CREATED {
                r.0 is Over && fails(
                    r.1,
                    "docker create failed: "@ + lossy_text(body@),
                    true,
                )
            } else {
                match created_id(body@) {
                    Ok(id) => (r.0 matches BuildState::Export { cid } && cid@ == id) && (
                    r.1 matches BuildAction::Export { path } && path@ == container_path(id)
                        + "/export"@),
                    Err(t) => r.0 is Over && fails(r.1, t, false),
                }
            },
            (BuildState::Build, BuildEvent::Ran { response: AgentResponse::Exec(x), written }) => if x.exit_code == 0 {
                r.0 is Install && r.1 is Install
            } else {
                r.0 is Over && fails(
                    r.1,
                    "image build failed:\n"@ + x.stdout@ + x.stderr@,
                    true,
                )
            },
            (BuildState::Build, BuildEvent::Ran { response, written }) => r.0 is Over && fails(
                r.1,
                "unexpected agent response: "@ + written@,
                true,
            ),
            (BuildState::Install, _) => r.0 is Over && (
            r.1 matches BuildAction::End { result: Ok(_), clean: true }),
            _ => true,
        }
    }

    /// The next step, from what the last one came to.
    pub fn step(&self, state: BuildState, e: BuildEvent) -> (r: (BuildState, BuildAction))
        requires
            self.data_gib * 1024 <= u64::MAX,
            state !is Over,
            state is Inspect || state is Pull || state is Recheck || state is Create ==> e is Answer
                || e is Failed,
            state is Export ==> e is Streamed,
            state is Build ==> e is Ran || e is Failed,
            state is Install ==> e is Installed || e is Failed,
        ensures
            self.goes_on(state, e, r),
            // The build is over just where it ends; it succeeds only once the
            // images are in place, which they are put only once they are built,
            // which they are only from a whole export; and a container that was
            // made is removed whatever becomes of its export.
            r.1 is End <==> r.0 is Over,
            (r.1 matches BuildAction::End { result: Ok(_), .. }) ==> state is Install,
            r.1 is Install <==> r.0 is Install,
            r.0 is Install ==> state is Build && (
            e matches BuildEvent::Ran { response: AgentResponse::Exec(x), .. } && x.exit_code == 0),
            r.0 is Build ==> (state matches BuildState::Remove { failed: None }),
            state is Export ==> r.0 is Remove && r.1 is Delete,
            r.0 is Export ==> state is Create,
            r.1 is CreateContainer ==> (e matches BuildEvent::Answer { status, .. } && status == 200),
    {
        match (state, e) {
            (BuildState::Remove { failed: None }, _) => (
                BuildState::Build,
                BuildAction::Run {
                    script: make_script(
                        self.stage.as_str(),
                        self.rootfs_mb,
                        self.data_gib,
                        self.name.as_str(),
                    ),
                },
            ),
            (BuildState::Remove { failed: Some(t) }, _) => (BuildState::Over, fail(t, true)),
            (BuildState::Export { cid }, BuildEvent::Streamed(s)) => {
                let path: String = cat2("/v1.43/containers/", cid.as_str());
                let failed: Option<String> = match s {
                    Ok(_) => None,
                    Err(t) => Some(t),
                };
                (BuildState::Remove { failed }, BuildAction::Delete { path })
            },
            (_, BuildEvent::Failed(t)) => (BuildState::Over, fail(t, false)),
            (BuildState::Inspect, BuildEvent::Answer { status, text: _, body: _ }) => {
                if status == STATUS_OK {
                    (BuildState::Create, BuildAction::CreateContainer)
                } else {
                    let q: String = urlish(self.image.as_str());
                    (
                        BuildState::Pull,
                        BuildAction::Post {
                            path: cat2("/v1.43/images/create?fromImage=", q.as_str()),
                        },
                    )
                }
            },
            (BuildState::Pull, BuildEvent::Answer { status, text, body }) => {
                if status == STATUS_OK {
                    (
                        BuildState::Recheck,
                        BuildAction::Get {
                            path: cat3("/v1.43/images/", self.image.as_str(), "/json"),
                        },
                    )
                } else {
                    let all: String = from_utf8_lossy(body.as_slice());
                    let msg: String = trim(all.as_str());
                    let end: String = tail_of_bytes(msg.as_str(), 300);
                    let mut t: String = cat5(
                        "image `",
                        self.image.as_str(),
                        "` could not be pulled (HTTP ",
                        text.as_str(),
                        "): ",
                    );
                    t.append(end.as_str());
                    (BuildState::Over, fail(t, true))
                }
            },
            (BuildState::Recheck, BuildEvent::Answer { status, text: _, body: _ }) => {
                if status == STATUS_OK {
                    (BuildState::Create, BuildAction::CreateContainer)
                } else {
                    (
                        BuildState::Over,
                        fail(
                            cat3("image `", self.image.as_str(), "` is not available after pull"),
                            true,
                        ),
                    )
                }
            },
            (BuildState::Create, BuildEvent::Answer { status, text: _, body }) => {
                if status != STATUS_CREATED {
                    let why: String = from_utf8_lossy(body.as_slice());
                    return (
                        BuildState::Over,
                        fail(cat2("docker create failed: ", why.as_str()), true),
                    );
                }
                match read_id(&body) {
                    Ok(cid) => {
                        let path: String = cat3("/v1.43/containers/", cid.as_str(), "/export");
                        (BuildState::Export { cid }, BuildAction::Export { path })
                    },
                    Err(t) => (BuildState::Over, fail(t, false)),
                }
            },
            (BuildState::Build, BuildEvent::Ran { response: AgentResponse::Exec(x), written: _ }) => {
                if x.exit_code == 0 {
                    (BuildState::Install, BuildAction::Install)
                } else {
                    (
                        BuildState::Over,
                        fail(
                            cat3("image build failed:\n", x.stdout.as_str(), x.stderr.as_str()),
                            true,
                        ),
                    )
                }
            },
            (BuildState::Build, BuildEvent::Ran { response: _, written }) => (
                BuildState::Over,
                fail(cat2("unexpected agent response: ", written.as_str()), true),
            ),
            _ => (BuildState::Over, BuildAction::End { result: Ok(()), clean: true }),
        }
    }
}

/// The client's build, with the host's docker binary.
#[derive(Debug)]
pub enum ClientState {
    Inspect,
    Pull,
    Create,
    Export { cid: String },
    Remove { exported: bool },
    Build,
    Install,
    Over,
}

/// What the client does next.
#[derive(Debug)]
pub enum ClientAction {
    /// Run docker with these arguments.
    Docker { args: Vec<String> },
    /// Run a script in the engine.
    Run { script: String },
    /// Move the images into place.
    Install,
    /// The end, and whether the stage is removed before it.
    End { result: Result<(), String>, clean: bool },
}

/// What came of it.
#[derive(Debug)]
pub enum ClientEvent {
    Docker { success: bool, stdout: Vec<u8>, stderr: Vec<u8> },
    Ran(ExecResult),
    Installed,
}

pub open spec fn runs_docker(a: ClientAction, args: Seq<Seq<char>>) -> bool {
    a matches ClientAction::Docker { args: v } && crate::text::views(v@) == args
}

pub open spec fn client_fails(a: ClientAction, text: Seq<char>, clean: bool) -> bool {
    match a {
        ClientAction::End { result: Err(e), clean: c } => e@ == text && c == clean,
        _ => false,
    }
}

fn client_fail(text: String, clean: bool) -> (a: ClientAction)
    ensures
        client_fails(a, text@, clean),
{
    ClientAction::End { result: Err(text), clean }
}

fn docker3(a: &str, b: &str, c: &str) -> (r: ClientAction)
    ensures
        runs_docker(r, seq![a@, b@, c@]),
{
    let args: Vec<String> = vec![owned(a), owned(b), owned(c)];
    assert(crate::text::views(args@) =~= seq![a@, b@, c@]);
    ClientAction::Docker { args }
}

fn docker2(a: &str, b: &str) -> (r: ClientAction)
    ensures
        runs_docker(r, seq![a@, b@]),
{
    let args: Vec<String> = vec![owned(a), owned(b)];
    assert(crate::text::views(args@) =~= seq![a@, b@]);
    ClientAction::Docker { args }
}

fn docker4(a: &str, b: &str, c: &str, d: &str) -> (r: ClientAction)
    ensures
        runs_docker(r, seq![a@, b@, c@, d@]),
{
    let args: Vec<String> = vec![owned(a), owned(b), owned(c), owned(d)];
    assert(crate::text::views(args@) =~= seq![a@, b@, c@, d@]);
    ClientAction::Docker { args }
}

impl ImageBuild {
    /// The client's first step: the engine must run.
    pub fn client_begin(&self, engine_runs: bool) -> (r: (ClientState, ClientAction))
        ensures
            if engine_runs {
                r.0 is Inspect && runs_docker(r.1, seq!["image"@, "inspect"@, self.image@])
            } else {
                r.0 is Over && client_fails(
                    r.1,
                    "building from an image needs the engine: nebula up"@,
                    false,
                )
            },
    {
        if engine_runs {
            (ClientState::Inspect, docker3("image", "inspect", self.image.as_str()))
        } else {
            (
                ClientState::Over,
                client_fail(owned("building from an image needs the engine: nebula up"), false),
            )
        }
    }

    /// What follows a step of the client.
    pub open spec fn client_goes_on(
        self,
        state: ClientState,
        e: ClientEvent,
        r: (ClientState, ClientAction),
    ) -> bool {
        match (state, e) {
            (ClientState::Inspect, ClientEvent::Docker { success, stdout, stderr }) => if success {
                r.0 is Create && runs_docker(
                    r.1,
                    seq!["create"@, self.image@, "/bin/true"@],
                )
            } else {
                r.0 is Pull && runs_docker(r.1, seq!["pull"@, "-q"@, self.image@])
            },
            (ClientState::Pull, ClientEvent::Docker { success, stdout, stderr }) => if success {
                r.0 is Create && runs_docker(
                    r.1,
                    seq!["create"@, self.image@, "/bin/true"@],
                )
            } else {
                r.0 is Over && client_fails(
                    r.1,
                    "image `"@ + self.image@
                        + "` is not in the engine and could not be pulled: "@ + lossy_text(
                        stderr@,
                    ),
                    false,
                )
            },
            (ClientState::Create, ClientEvent::Docker { success, stdout, stderr }) => if success {
                let id = crate::text::trimmed(lossy_text(stdout@));
                (r.0 matches ClientState::Export { cid } && cid@ == id) && runs_docker(
                    r.1,
                    seq!["export"@, "-o"@, joined_path(self.stage@, "export.tar"@), id],
                )
            } else {
                r.0 is Over && client_fails(
                    r.1,
                    "docker create failed: "@ + lossy_text(stderr@),
                    false,
                )
            },
            (ClientState::Export { cid }, ClientEvent::Docker { success, stdout, stderr }) => r.0
                == (ClientState::Remove { exported: success }) && runs_docker(
                r.1,
                seq!["rm"@, cid@],
            ),
            (ClientState::Remove { exported }, _) => if exported {
                r.0 is Build && (r.1 matches ClientAction::Run { script } && script@
                    == client_script(self.stage@, self.rootfs_mb, self.data_gib, self.name@))
            } else {
                r.0 is Over && client_fails(r.1, "docker export failed"@, false)
            },
            (ClientState::Build, ClientEvent::Ran(x)) => if x.exit_code == 0 {
                r.0 is Install && r.1 is Install
            } else {
                r.0 is Over && client_fails(
                    r.1,
                    "image build failed:\n"@ + x.stdout@ + x.stderr@,
                    true,
                )
            },
            (ClientState::Install, _) => r.0 is Over && (
            r.1 matches ClientAction::End { result: Ok(_), clean: true }),
            _ => true,
        }
    }

    /// The client's next step, from what the last one came to.
    pub fn client_step(&self, state: ClientState, e: ClientEvent) -> (r: (ClientState, ClientAction))
        requires
            self.data_gib * 1024 <= u64::MAX,
            state !is Over,
            state is Inspect || state is Pull || state is Create || state is Export
                || state is Remove ==> e is Docker,
            state is Build ==> e is Ran,
            state is Install ==> e is Installed,
        ensures
            self.client_goes_on(state, e, r),
            r.1 is End <==> r.0 is Over,
            (r.1 matches ClientAction::End { result: Ok(_), .. }) ==> state is Install,
            r.1 is Install <==> r.0 is Install,
            r.0 is Install ==> state is Build && (e matches ClientEvent::Ran(x) && x.exit_code == 0),
            r.0 is Build ==> (state matches ClientState::Remove { exported } && exported),
            state is Export ==> r.0 is Remove && r.1 is Docker,
            r.0 is Export ==> state is Create,
    {
        match (state, e) {
            (ClientState::Inspect, ClientEvent::Docker { success, stdout: _, stderr: _ }) => {
                if success {
                    (
                        ClientState::Create,
                        docker3("create", self.image.as_str(), "/bin/true"),
                    )
                } else {
                    (ClientState::Pull, docker3("pull", "-q", self.image.as_str()))
                }
            },
            (ClientState::Pull, ClientEvent::Docker { success, stdout: _, stderr }) => {
                if success {
                    (
                        ClientState::Create,
                        docker3("create", self.image.as_str(), "/bin/true"),
                    )
                } else {
                    let why: String = from_utf8_lossy(stderr.as_slice());
                    (
                        ClientState::Over,
                        client_fail(
                            cat4(
                                "image `",
                                self.image.as_str(),
                                "` is not in the engine and could not be pulled: ",
                                why.as_str(),
                            ),
                            false,
                        ),
                    )
                }
            },
            (ClientState::Create, ClientEvent::Docker { success, stdout, stderr }) => {
                if success {
                    let out: String = from_utf8_lossy(stdout.as_slice());
                    let cid: String = trim(out.as_str());
                    let tar: String = join(self.stage.as_str(), "export.tar");
                    let a: ClientAction = docker4("export", "-o", tar.as_str(), cid.as_str());
                    (ClientState::Export { cid }, a)
                } else {
                    let why: String = from_utf8_lossy(stderr.as_slice());
                    (
                        ClientState::Over,
                        client_fail(cat2("docker create failed: ", why.as_str()), false),
                    )
                }
            },
            (ClientState::Export { cid }, ClientEvent::Docker { success, stdout: _, stderr: _ }) => (
                ClientState::Remove { exported: success },
                docker2("rm", cid.as_str()),
            ),
            (ClientState::Remove { exported }, _) => {
                if exported {
                    (
                        ClientState::Build,
                        ClientAction::Run {
                            script: make_client_script(
                                self.stage.as_str(),
                                self.rootfs_mb,
                                self.data_gib,
                                self.name.as_str(),
                            ),
                        },
                    )
                } else {
                    (ClientState::Over, client_fail(owned("docker export failed"), false))
                }
            },
            (ClientState::Build, ClientEvent::Ran(x)) => {
                if x.exit_code == 0 {
                    (ClientState::Install, ClientAction::Install)
                } else {
                    (
                        ClientState::Over,
                        client_fail(
                            cat3("image build failed:\n", x.stdout.as_str(), x.stderr.as_str()),
                            true,
                        ),
                    )
                }
            },
            _ => (ClientState::Over, ClientAction::End { result: Ok(()), clean: true }),
        }
    }
}

/// The script that formats a data disk in the engine: foreign images may lack
/// the tools to do it themselves.
pub fn data_disk_script(stage: &str, data_gib: u64) -> (s: String)
    requires
        data_gib * 1024 <= u64::MAX,
    ensures
        s@ == "set -e\ntruncate -s "@ + crate::text::decimal((data_gib * 1024) as nat) + "M '"@ + stage@
            + "/data.img'\nmkfs.ext4 -q -L nebula-data '"@ + stage@ + "/data.img'\n"@,
{
    let n: String = decimal_str(data_gib * 1024);
    let mut s: String = cat5(
        "set -e\ntruncate -s ",
        n.as_str(),
        "M '",
        stage,
        "/data.img'\nmkfs.ext4 -q -L nebula-data '",
    );
    s.append(stage);
    s.append("/data.img'\n");
    s
}

proof fn lemma_replaced(a: Seq<char>, b: Seq<char>, c: char, t: Seq<char>)
    ensures
        crate::text::replaced(a + b, c, t) == crate::text::replaced(a, c, t)
            + crate::text::replaced(b, c, t),
    decreases b.len(),
{
    if b.len() == 0 {
        assert(a + b =~= a);
        assert(crate::text::replaced(b, c, t) =~= Seq::empty());
        assert(crate::text::replaced(a, c, t) + Seq::<char>::empty() =~= crate::text::replaced(
            a,
            c,
            t,
        ));
    } else {
        lemma_replaced(a, b.drop_last(), c, t);
        assert((a + b).drop_last() =~= a + b.drop_last());
        assert((a + b).last() == b.last());
        assert(crate::text::replaced(a + b, c, t) =~= crate::text::replaced(a, c, t)
            + crate::text::replaced(b, c, t));
    }
}

proof fn lemma_replaced_one(x: char, c: char, t: Seq<char>)
    ensures
        crate::text::replaced(seq![x], c, t) == (if x == c {
            t
        } else {
            seq![x]
        }),
{
    assert(seq![x].drop_last() =~= Seq::empty());
    assert(crate::text::replaced(Seq::empty(), c, t) =~= Seq::empty());
    assert(Seq::<char>::empty() + t =~= t);
    assert(Seq::<char>::empty().push(x) =~= seq![x]);
}

/// In a query a percent sign, an ampersand and a blank are written as their
/// numbers, and every other character as it is.
pub proof fn what_is_escaped_in_a_query(s: Seq<char>, x: char)
    ensures
        query_escaped(Seq::empty()) == Seq::<char>::empty(),
        query_escaped(s.push(x)) == query_escaped(s) + (if x == '%' {
            seq!['%', '2', '5']
        } else if x == '&' {
            seq!['%', '2', '6']
        } else if x == ' ' {
            seq!['%', '2', '0']
        } else {
            seq![x]
        }),
{
    reveal_strlit("%25");
    reveal_strlit("%26");
    reveal_strlit("%20");
    let (a, b, c) = ("%25"@, "%26"@, "%20"@);
    assert(a =~= seq!['%', '2', '5']);
    assert(b =~= seq!['%', '2', '6']);
    assert(c =~= seq!['%', '2', '0']);
    let none = Seq::<char>::empty();
    assert(crate::text::replaced(none, '%', a) =~= none);
    assert(crate::text::replaced(none, '&', b) =~= none);
    assert(crate::text::replaced(none, ' ', c) =~= none);
    assert(s.push(x) =~= s + seq![x]);
    let s1 = crate::text::replaced(s, '%', a);
    let s2 = crate::text::replaced(s1, '&', b);
    lemma_replaced(s, seq![x], '%', a);
    lemma_replaced_one(x, '%', a);
    let y = if x == '%' {
        a
    } else {
        seq![x]
    };
    lemma_replaced(s1, y, '&', b);
    if x == '%' {
        lemma_plain_escape(a, '&', b, ' ', c);
        lemma_replaced(s2, a, ' ', c);
    } else {
        lemma_replaced_one(x, '&', b);
        if x == '&' {
            lemma_plain_escape(b, '&', b, ' ', c);
            lemma_replaced(s2, b, ' ', c);
        } else {
            lemma_replaced(s2, seq![x], ' ', c);
            lemma_replaced_one(x, ' ', c);
        }
    }
}

proof fn lemma_plain_escape(e: Seq<char>, p: char, t: Seq<char>, q: char, u: Seq<char>)
    requires
        e.len() == 3,
        forall|i: int| 0 <= i < 3 ==> #[trigger] e[i] != p && e[i] != q,
    ensures
        crate::text::replaced(e, p, t) == e,
        crate::text::replaced(e, q, u) == e,
{
    lemma_unreplaced(e, p, t);
    lemma_unreplaced(e, q, u);
}

proof fn lemma_unreplaced(e: Seq<char>, p: char, t: Seq<char>)
    requires
        forall|i: int| 0 <= i < e.len() ==> #[trigger] e[i] != p,
    ensures
        crate::text::replaced(e, p, t) == e,
    decreases e.len(),
{
    if e.len() > 0 {
        lemma_unreplaced(e.drop_last(), p, t);
        assert(e.drop_last().push(e.last()) =~= e);
    } else {
        assert(crate::text::replaced(e, p, t) =~= e);
    }
}

/// What a build is told: where it stages, how large its images are, in MiB, and
/// where it works.
pub proof fn what_a_build_is_told(stage: Seq<char>, rootfs_mb: u64, data_gib: u64, name: Seq<char>)
    ensures
        crate::text::has_prefix(
            build_script(stage, rootfs_mb, data_gib, name),
            "set -e\nSTAGE='"@ + stage + "'; SIZE_MB="@ + crate::text::decimal(rootfs_mb as nat)
                + "; DATA_MB="@ + crate::text::decimal((data_gib * 1024) as nat)
                + "\nBUILD=/var/lib/nebula/img-build-"@ + name,
        ),
        crate::text::has_prefix(
            client_script(stage, rootfs_mb, data_gib, name),
            "set -e\nSTAGE='"@ + stage + "'; SIZE_MB="@ + crate::text::decimal(rootfs_mb as nat)
                + "; DATA_MB="@ + crate::text::decimal((data_gib * 1024) as nat)
                + "\nBUILD=/var/lib/nebula/img-build-"@ + name,
        ),
{
    let h = script_head(stage, rootfs_mb, data_gib * 1024, name);
    let a = build_script(stage, rootfs_mb, data_gib, name);
    let b = client_script(stage, rootfs_mb, data_gib, name);
    assert(a.subrange(0, h.len() as int) =~= h);
    assert(b.subrange(0, h.len() as int) =~= h);
}

/// An image that is there is used at once, one that is not is pulled and looked
/// for again; and a pull that fails fails the build.
pub proof fn how_an_image_is_had(
    b: ImageBuild,
    status: u16,
    text: String,
    body: Vec<u8>,
    inspected: (BuildState, BuildAction),
    pulled: (BuildState, BuildAction),
    rechecked: (BuildState, BuildAction),
)
    requires
        b.goes_on(BuildState::Inspect, BuildEvent::Answer { status, text, body }, inspected),
        b.goes_on(BuildState::Pull, BuildEvent::Answer { status, text, body }, pulled),
        b.goes_on(BuildState::Recheck, BuildEvent::Answer { status, text, body }, rechecked),
    ensures
        inspected.1 is CreateContainer <==> status == 200,
        status != 200 ==> (inspected.1 matches BuildAction::Post { path } && path@
            == "/v1.43/images/create?fromImage="@ + query_escaped(b.image@)) && inspected.0 is Pull,
        status == 200 ==> (pulled.1 matches BuildAction::Get { path } && path@ == "/v1.43/images/"@
            + b.image@ + "/json"@) && pulled.0 is Recheck,
        status != 200 ==> (pulled.1 matches BuildAction::End { result, clean } && result is Err
            && clean),
        rechecked.1 is CreateContainer <==> status == 200,
        status != 200 ==> (rechecked.1 matches BuildAction::End { result, clean } && result is Err
            && clean),
{
}

/// From the container on: it is exported, then removed whatever came of that;
/// what was exported whole is built, what is built is installed, and that ends
/// the build well. Each failure ends it with what went wrong.
pub proof fn how_a_container_becomes_images(
    b: ImageBuild,
    cid: String,
    streamed: Result<(), String>,
    next: BuildEvent,
    exported: (BuildState, BuildAction),
    removed: (BuildState, BuildAction),
    run: ExecResult,
    written: String,
    ran: (BuildState, BuildAction),
    installed: (BuildState, BuildAction),
)
    requires
        b.goes_on(BuildState::Export { cid }, BuildEvent::Streamed(streamed), exported),
        b.goes_on(exported.0, next, removed),
        b.goes_on(
            BuildState::Build,
            BuildEvent::Ran { response: AgentResponse::Exec(run), written },
            ran,
        ),
        b.goes_on(BuildState::Install, BuildEvent::Installed, installed),
    ensures
        exported.1 matches BuildAction::Delete { path } && path@ == "/v1.43/containers/"@ + cid@,
        streamed is Ok <==> removed.1 is Run,
        streamed matches Err(t) ==> (removed.1 matches BuildAction::End { result: Err(e), clean }
            && e@ == t@ && clean),
        ran.1 is Install <==> run.exit_code == 0,
        run.exit_code != 0 ==> (ran.1 matches BuildAction::End { result: Err(e), clean } && clean
            && crate::text::has_suffix(e@, run.stdout@ + run.stderr@)),
        installed.1 matches BuildAction::End { result: Ok(_), clean } && clean,
{
    if run.exit_code != 0 {
        let e = ran.1->End_result->Err_0@;
        let t = run.stdout@ + run.stderr@;
        let n = e.len() - t.len();
        assert(e =~= "image build failed:\n"@ + t);
        assert(e.subrange(n, n + t.len()) =~= t);
    }
}

/// The client asks for the same steps of the command line: what it has is
/// used, what it has not is pulled; a container goes whatever came of it.
pub proof fn how_a_client_builds(
    b: ImageBuild,
    success: bool,
    stdout: Vec<u8>,
    stderr: Vec<u8>,
    cid: String,
    next: ClientEvent,
    inspected: (ClientState, ClientAction),
    pulled: (ClientState, ClientAction),
    created: (ClientState, ClientAction),
    exported: (ClientState, ClientAction),
    removed: (ClientState, ClientAction),
)
    requires
        ({
            let e = ClientEvent::Docker { success, stdout, stderr };
            &&& b.client_goes_on(ClientState::Inspect, e, inspected)
            &&& b.client_goes_on(ClientState::Pull, e, pulled)
            &&& b.client_goes_on(ClientState::Create, e, created)
            &&& b.client_goes_on(ClientState::Export { cid }, e, exported)
            &&& b.client_goes_on(exported.0, next, removed)
        }),
    ensures
        success ==> runs_docker(inspected.1, seq!["create"@, b.image@, "/bin/true"@]),
        !success ==> runs_docker(inspected.1, seq!["pull"@, "-q"@, b.image@]),
        success ==> runs_docker(pulled.1, seq!["create"@, b.image@, "/bin/true"@]),
        pulled.1 is End <==> !success,
        created.1 is End <==> !success,
        success ==> (created.0 matches ClientState::Export { cid: id } && runs_docker(
            created.1,
            seq!["export"@, "-o"@, joined_path(b.stage@, "export.tar"@), id@],
        )),
        runs_docker(exported.1, seq!["rm"@, cid@]),
        removed.1 is Run <==> success,
        removed.1 is End <==> !success,
{
}

/// The client installs what was built, and nothing else ends it well.
pub proof fn how_a_client_ends(
    b: ImageBuild,
    run: ExecResult,
    ran: (ClientState, ClientAction),
    installed: (ClientState, ClientAction),
)
    requires
        b.client_goes_on(ClientState::Build, ClientEvent::Ran(run), ran),
        b.client_goes_on(ClientState::Install, ClientEvent::Installed, installed),
    ensures
        ran.1 is Install <==> run.exit_code == 0,
        run.exit_code != 0 ==> (ran.1 matches ClientAction::End { result, clean } && result is Err
            && clean),
        installed.1 matches ClientAction::End { result, clean } && result is Ok && clean,
{
}

} // verus!

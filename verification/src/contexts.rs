//! Pointing docker, nerdctl and kubectl at Nebula, and putting them back
//! exactly as they were. Nothing but what selects the active target is ever
//! rewritten, and the way back is a stack, so that repeated switches lose no
//! history.

use crate::checksum::sha256_hex;
use crate::doc::{as_text, assign, copy_at, find_key, get, text_field, Doc, DocView, Step};
use crate::kube::{key, nebula};
use crate::paths::{join, joined_path};
use crate::text::{cat2, cat3, contains, opt_owned, owned, same, starts_with};
use vstd::prelude::*;

verus! {

/// The docker context that belongs to Nebula.
pub const DOCKER_CONTEXT_NAME: &'static str = "nebula";

/// A tool that can point at Nebula.
#[derive(Debug, Clone, Copy, PartialEq, Eq, Structural)]
pub enum Tool {
    Docker,
    Nerdctl,
    Kubectl,
}

/// Which tool is set up; the error's text for another word.
pub fn setup_tool(tool: &str) -> (r: Result<Tool, String>)
    ensures
        match r {
            Ok(Tool::Docker) => tool@ == "docker"@,
            Ok(Tool::Nerdctl) => tool@ != "docker"@ && tool@ == "nerdctl"@,
            Ok(Tool::Kubectl) => tool@ != "docker"@ && tool@ != "nerdctl"@ && tool@ == "kubectl"@,
            Err(e) => tool@ != "docker"@ && tool@ != "nerdctl"@ && tool@ != "kubectl"@ && e@
                == "unknown tool `"@ + tool@ + "` (expected docker, nerdctl, or kubectl)"@,
        },
{
    if same(tool, "docker") {
        Ok(Tool::Docker)
    } else if same(tool, "nerdctl") {
        Ok(Tool::Nerdctl)
    } else if same(tool, "kubectl") {
        Ok(Tool::Kubectl)
    } else {
        Err(cat3("unknown tool `", tool, "` (expected docker, nerdctl, or kubectl)"))
    }
}

/// Which tools are put back, in this order; the error's text for another word.
pub fn revert_tool(tool: &str) -> (r: Result<Vec<Tool>, String>)
    ensures
        match r {
            Ok(v) => v@ == (if tool@ == "docker"@ {
                seq![Tool::Docker]
            } else if tool@ == "nerdctl"@ {
                seq![Tool::Nerdctl]
            } else if tool@ == "kubectl"@ {
                seq![Tool::Kubectl]
            } else {
                seq![Tool::Docker, Tool::Nerdctl, Tool::Kubectl]
            }) && (tool@ == "docker"@ || tool@ == "nerdctl"@ || tool@ == "kubectl"@ || tool@
                == "--all"@ || tool@ == "all"@),
            Err(e) => tool@ != "docker"@ && tool@ != "nerdctl"@ && tool@ != "kubectl"@ && tool@
                != "--all"@ && tool@ != "all"@ && e@ == "unknown tool `"@ + tool@ + "`"@,
        },
{
    let mut v: Vec<Tool> = Vec::new();
    if same(tool, "docker") {
        v.push(Tool::Docker);
    } else if same(tool, "nerdctl") {
        v.push(Tool::Nerdctl);
    } else if same(tool, "kubectl") {
        v.push(Tool::Kubectl);
    } else if same(tool, "--all") || same(tool, "all") {
        v.push(Tool::Docker);
        v.push(Tool::Nerdctl);
        v.push(Tool::Kubectl);
    } else {
        return Err(cat3("unknown tool `", tool, "`"));
    }
    Ok(v)
}

// docker

pub open spec fn docker_dir_of(home: Seq<char>) -> Seq<char> {
    joined_path(home, ".docker"@)
}

/// Where docker keeps its settings.
pub fn docker_config_path(home: &str) -> (p: String)
    ensures
        p@ == joined_path(docker_dir_of(home@), "config.json"@),
{
    join(join(home, ".docker").as_str(), "config.json")
}

/// Where docker keeps what it knows of a context: under the digest of its
/// name.
pub fn docker_context_meta_dir(home: &str, name: &str) -> (p: String)
    ensures
        p@ == joined_path(
            joined_path(docker_dir_of(home@), "contexts/meta"@),
            crate::text::hex_of(crate::checksum::sha256(vstd::utf8::encode_utf8(name@))),
        ),
{
    let hex: String = sha256_hex(name.as_bytes());
    let dir: String = join(join(home, ".docker").as_str(), "contexts/meta");
    join(dir.as_str(), hex.as_str())
}

/// The engine's address for docker.
pub fn nebula_docker_host(nebula_home: &str) -> (s: String)
    ensures
        s@ == "unix://"@ + joined_path(nebula_home@, "run/docker.sock"@),
{
    cat2("unix://", join(nebula_home, "run/docker.sock").as_str())
}

/// What docker is told of Nebula's context.
pub open spec fn context_meta_of(host: Seq<char>) -> DocView {
    DocView::Table(
        seq![
            (DocView::Str("Name"@), nebula()),
            (
                DocView::Str("Metadata"@),
                DocView::Table(
                    seq![(DocView::Str("Description"@), DocView::Str("Nebula Vessel"@))],
                ),
            ),
            (
                DocView::Str("Endpoints"@),
                DocView::Table(
                    seq![
                        (
                            DocView::Str("docker"@),
                            DocView::Table(
                                seq![
                                    (DocView::Str("Host"@), DocView::Str(host)),
                                    (DocView::Str("SkipTLSVerify"@), DocView::Bool(false)),
                                ],
                            ),
                        ),
                    ],
                ),
            ),
        ],
    )
}

fn member(key: &str, d: Doc) -> (m: (Doc, Doc))
    ensures
        m.0@ == DocView::Str(key@),
        m.1@ == d@,
{
    (Doc::Str(owned(key)), d)
}

fn table1(a: (Doc, Doc)) -> (d: Doc)
    ensures
        d@ == DocView::Table(seq![(a.0@, a.1@)]),
{
    let d: Doc = Doc::Table(vec![a]);
    assert(d@->Table_0 =~= seq![(a.0@, a.1@)]);
    d
}

fn table2(a: (Doc, Doc), b: (Doc, Doc)) -> (d: Doc)
    ensures
        d@ == DocView::Table(seq![(a.0@, a.1@), (b.0@, b.1@)]),
{
    let d: Doc = Doc::Table(vec![a, b]);
    assert(d@->Table_0 =~= seq![(a.0@, a.1@), (b.0@, b.1@)]);
    d
}

fn table3(a: (Doc, Doc), b: (Doc, Doc), c: (Doc, Doc)) -> (d: Doc)
    ensures
        d@ == DocView::Table(seq![(a.0@, a.1@), (b.0@, b.1@), (c.0@, c.1@)]),
{
    let d: Doc = Doc::Table(vec![a, b, c]);
    assert(d@->Table_0 =~= seq![(a.0@, a.1@), (b.0@, b.1@), (c.0@, c.1@)]);
    d
}

/// The entry that docker gets for Nebula's context.
pub fn context_meta(nebula_home: &str) -> (d: Doc)
    ensures
        d@ == context_meta_of("unix://"@ + joined_path(nebula_home@, "run/docker.sock"@)),
{
    let host: Doc = Doc::Str(nebula_docker_host(nebula_home));
    let docker: Doc = table2(member("Host", host), member("SkipTLSVerify", Doc::Bool(false)));
    let endpoints: Doc = table1(member("docker", docker));
    let metadata: Doc = table1(member("Description", Doc::Str(owned("Nebula Vessel"))));
    table3(
        member("Name", Doc::Str(owned("nebula"))),
        member("Metadata", metadata),
        member("Endpoints", endpoints),
    )
}

/// The context that docker's settings select.
pub open spec fn docker_current(cfg: DocView) -> Option<Seq<char>> {
    crate::doc::text_of(crate::doc::field(cfg, "currentContext"@))
}

pub open spec fn docker_selecting(cfg: DocView, name: Seq<char>) -> Option<DocView> {
    crate::doc::set_at(cfg, seq![key("currentContext"@)], DocView::Str(name))
}

/// What pointing docker at Nebula does.
#[derive(Debug)]
pub enum UseDocker {
    /// It points there already.
    Already,
    /// The new settings, and what they selected before.
    Switch { cfg: Doc, previous: Option<String> },
    /// The settings are no table.
    BadShape,
}

fn context_path() -> (p: Vec<Step>)
    ensures
        crate::doc::step_views(p@) == seq![key("currentContext"@)],
{
    let p: Vec<Step> = vec![Step::Key(owned("currentContext"))];
    assert(crate::doc::step_views(p@) =~= seq![key("currentContext"@)]);
    p
}

/// Point docker at Nebula.
pub fn use_docker(cfg: Doc) -> (r: UseDocker)
    ensures
        match r {
            UseDocker::Already => docker_current(cfg@) == Some("nebula"@),
            UseDocker::Switch { cfg: new, previous } => docker_current(cfg@) != Some("nebula"@)
                && crate::text::opt_view(previous) == docker_current(cfg@) && docker_selecting(
                cfg@,
                "nebula"@,
            ) == Some(new@),
            UseDocker::BadShape => docker_current(cfg@) != Some("nebula"@) && docker_selecting(
                cfg@,
                "nebula"@,
            ) is None,
        },
{
    let previous: Option<String> = text_field(&cfg, "currentContext");
    let already: bool = match &previous {
        Some(p) => same(p.as_str(), "nebula"),
        None => false,
    };
    if already {
        return UseDocker::Already;
    }
    match assign(cfg, &context_path(), Doc::Str(owned("nebula"))) {
        Some(cfg) => UseDocker::Switch { cfg, previous },
        None => UseDocker::BadShape,
    }
}

/// Settings without a member, the others as they stood.
pub open spec fn without_key(d: DocView, k: Seq<char>) -> DocView {
    match d {
        DocView::Table(m) => match crate::doc::position(m, DocView::Str(k)) {
            Some(i) => DocView::Table(m.remove(i)),
            None => d,
        },
        _ => d,
    }
}

/// Docker's settings as they were before the switch.
pub open spec fn docker_reverted(cfg: DocView, previous: Option<Seq<char>>) -> Option<DocView> {
    match previous {
        Some(name) => docker_selecting(cfg, name),
        None => Some(without_key(cfg, "currentContext"@)),
    }
}

/// Put docker's previous context back; none where the settings are no table.
pub fn revert_docker(cfg: Doc, previous: &Option<String>) -> (r: Option<Doc>)
    ensures
        match r {
            Some(d) => docker_reverted(cfg@, crate::text::opt_view(*previous)) == Some(d@),
            None => docker_reverted(cfg@, crate::text::opt_view(*previous)) is None,
        },
{
    match previous {
        Some(name) => assign(cfg, &context_path(), Doc::Str(owned(name.as_str()))),
        None => {
            proof {
                crate::doc::lemma_tree(cfg);
            }
            match cfg {
                Doc::Table(m) => {
                    let ghost all = crate::doc::member_views(m@);
                    match find_key(&m, "currentContext") {
                        Some(i) => {
                            let mut m: Vec<(Doc, Doc)> = m;
                            m.remove(i);
                            let d: Doc = Doc::Table(m);
                            assert(d@->Table_0 =~= all.remove(i as int));
                            Some(d)
                        },
                        None => Some(Doc::Table(m)),
                    }
                },
                other => Some(other),
            }
        },
    }
}

/// After a switch and a revert docker's settings are as they were. The context
/// that they select, where they name one, is a text.
pub proof fn docker_is_put_back(cfg: DocView)
    requires
        cfg is Table,
        match crate::doc::position(cfg->Table_0, DocView::Str("currentContext"@)) {
            Some(i) => cfg->Table_0[i].1 is Str,
            None => true,
        },
    ensures
        ({
            let previous = docker_current(cfg);
            let back = docker_reverted(docker_selecting(cfg, "nebula"@)->0, previous);
            &&& docker_selecting(cfg, "nebula"@) is Some
            &&& back is Some
            &&& docker_current(back->0) == previous
            &&& back->0 == cfg
        }),
{
    reveal_with_fuel(crate::doc::set_at, 2);
    let cc = "currentContext"@;
    let path = seq![key(cc)];
    assert(path.skip(1) =~= Seq::empty());
    let previous = docker_current(cfg);
    let chosen = docker_selecting(cfg, "nebula"@)->0;
    assert(cc.push('x').len() != cc.len());
    crate::kube::set_touches_one_member(cfg, cc, nebula(), cc.push('x'));
    match previous {
        Some(name) => {
            let m = cfg->Table_0;
            let kd = DocView::Str(cc);
            crate::doc::lemma_position(m, kd);
            let i = crate::doc::position(m, kd)->0;
            let n = chosen->Table_0;
            assert(n =~= m.update(i, (m[i].0, nebula())));
            crate::doc::lemma_position(n, kd);
            let j = crate::doc::position(n, kd)->0;
            assert(n[i].0 == kd);
            assert(n[j].0 == m[j].0);
            assert(j == i);
            let back = docker_reverted(chosen, previous)->0->Table_0;
            assert(m[i] == (kd, DocView::Str(name)));
            assert(back =~= n.update(i, (n[i].0, DocView::Str(name))));
            assert(back =~= m);
        },
        None => {
            let m = cfg->Table_0;
            let kd = DocView::Str(cc);
            let n = chosen->Table_0;
            assert(n == m.push((kd, nebula())));
            assert(n.drop_last() =~= m);
            assert(crate::doc::position(n, kd) == Some(n.len() - 1));
            assert(n.remove(n.len() - 1) =~= m);
        },
    }
}

/// The address of a context's docker daemon.
pub open spec fn docker_host_of(meta: DocView) -> Option<Seq<char>> {
    crate::doc::text_of(
        crate::doc::at_path(meta, seq![key("Endpoints"@), key("docker"@), key("Host"@)]),
    )
}

/// Whether a docker address leads to another machine.
pub open spec fn is_remote(host: Seq<char>) -> bool {
    crate::text::has_prefix(host, "ssh://"@) || crate::text::has_prefix(host, "tcp://"@)
}

/// The warning before switching away from a context on another machine.
pub fn remote_warning(name: &str, meta: &Doc) -> (r: Option<String>)
    ensures
        crate::text::opt_view(r) == (match docker_host_of(meta@) {
            Some(host) => if is_remote(host) {
                Some(
                    "\n  ⚠ switching away from REMOTE docker context `"@ + name@ + "` ("@ + host
                        + ")\n    `nebula revert docker` restores it.\n"@,
                )
            } else {
                None
            },
            None => None,
        }),
{
    let path: Vec<Step> = vec![
        Step::Key(owned("Endpoints")),
        Step::Key(owned("docker")),
        Step::Key(owned("Host")),
    ];
    assert(crate::doc::step_views(path@) =~= seq![
        key("Endpoints"@),
        key("docker"@),
        key("Host"@),
    ]);
    let at: Doc = copy_at(meta, &path);
    match as_text(&at) {
        Some(host) => {
            if starts_with(host.as_str(), "ssh://") || starts_with(host.as_str(), "tcp://") {
                Some(
                    crate::text::cat5(
                        "\n  ⚠ switching away from REMOTE docker context `",
                        name,
                        "` (",
                        host.as_str(),
                        ")\n    `nebula revert docker` restores it.\n",
                    ),
                )
            } else {
                None
            }
        },
        None => None,
    }
}

/// How a tool's previous target is called.
pub fn previous_name(previous: &Option<String>) -> (s: String)
    ensures
        s@ == (match *previous {
            Some(p) => p@,
            None => "default (unset)"@,
        }),
{
    match previous {
        Some(p) => owned(p.as_str()),
        None => owned("default (unset)"),
    }
}

// nerdctl

/// Where nerdctl keeps its settings.
pub fn nerdctl_toml(home: &str) -> (p: String)
    ensures
        p@ == joined_path(home@, ".config/nerdctl/nerdctl.toml"@),
{
    join(home, ".config/nerdctl/nerdctl.toml")
}

/// The line that stands above nerdctl's settings while they point at Nebula.
pub const NERDCTL_HEADER: &'static str =
    "# written by `nebula setup nerdctl` — revert with `nebula revert nerdctl`\n";

/// The address under which nerdctl finds Nebula's containerd.
pub open spec fn nerdctl_address(nebula_home: Seq<char>) -> Seq<char> {
    "unix://"@ + joined_path(nebula_home, "run/containerd.sock"@)
}

/// Whether settings have a member.
pub open spec fn has_member(d: DocView, k: Seq<char>) -> bool {
    crate::doc::untagged(d) is Table && crate::doc::position(
        crate::doc::untagged(d)->Table_0,
        DocView::Str(k),
    ) is Some
}

/// nerdctl's settings with Nebula selected: its address, and the default
/// namespace where they name none. The other members are as they stood.
pub open spec fn nerdctl_selecting(cfg: DocView, nebula_home: Seq<char>) -> Option<DocView> {
    match crate::doc::set_at(
        cfg,
        seq![key("address"@)],
        DocView::Str(nerdctl_address(nebula_home)),
    ) {
        Some(d) => if has_member(d, "namespace"@) {
            Some(d)
        } else {
            crate::doc::set_at(d, seq![key("namespace"@)], DocView::Str("default"@))
        },
        None => None,
    }
}

/// Select Nebula in nerdctl's settings; none where they are no table.
pub fn select_nerdctl(cfg: Doc, nebula_home: &str) -> (r: Option<Doc>)
    ensures
        match r {
            Some(d) => nerdctl_selecting(cfg@, nebula_home@) == Some(d@),
            None => nerdctl_selecting(cfg@, nebula_home@) is None,
        },
{
    let address: Vec<Step> = vec![Step::Key(owned("address"))];
    let namespace: Vec<Step> = vec![Step::Key(owned("namespace"))];
    assert(crate::doc::step_views(address@) =~= seq![key("address"@)]);
    assert(crate::doc::step_views(namespace@) =~= seq![key("namespace"@)]);
    let to: String = cat2("unix://", join(nebula_home, "run/containerd.sock").as_str());
    match assign(cfg, &address, Doc::Str(to)) {
        Some(d) => {
            let named: bool = get(&d, "namespace").is_some();
            if named {
                Some(d)
            } else {
                assign(d, &namespace, Doc::Str(owned("default")))
            }
        },
        None => None,
    }
}

/// The settings that point nerdctl at Nebula: those of the file that is there,
/// with Nebula selected; the error's text where it holds no settings.
pub fn nerdctl_settings(old: &Option<String>, nebula_home: &str) -> (r: Result<Doc, String>)
    ensures
        ({
            let cfg = match *old {
                Some(text) => crate::toml_doc::toml_text(text@),
                None => Ok(DocView::Table(Seq::empty())),
            };
            match r {
                Ok(d) => cfg is Ok && nerdctl_selecting(cfg->Ok_0, nebula_home@) == Some(d@),
                Err(e) => match cfg {
                    Ok(c) => nerdctl_selecting(c, nebula_home@) is None && e@ == "not a table"@,
                    Err(why) => e@ == why,
                },
            }
        }),
{
    let cfg: Doc = match old {
        Some(text) => match crate::toml_doc::parse_toml(text.as_str()) {
            Ok(d) => d,
            Err(e) => {
                return Err(e);
            },
        },
        None => {
            let d: Doc = Doc::Table(Vec::new());
            assert(d@->Table_0 =~= Seq::empty());
            d
        },
    };
    match select_nerdctl(cfg, nebula_home) {
        Some(d) => Ok(d),
        None => Err(owned("not a table")),
    }
}

/// Pointing nerdctl at Nebula sets the address and leaves every other setting
/// as it stood; a namespace is added where there was none.
pub proof fn nerdctl_keeps_its_settings(cfg: DocView, nebula_home: Seq<char>, other: Seq<char>)
    requires
        cfg is Table,
        other != "address"@,
    ensures
        ({
            let new = nerdctl_selecting(cfg, nebula_home);
            &&& new is Some
            &&& crate::doc::field(new->0, "address"@) == DocView::Str(nerdctl_address(nebula_home))
            &&& crate::doc::field(new->0, other) == (if other == "namespace"@ && !has_member(
                cfg,
                "namespace"@,
            ) {
                DocView::Str("default"@)
            } else {
                crate::doc::field(cfg, other)
            })
        }),
{
    reveal_strlit("address");
    reveal_strlit("namespace");
    let (a, n) = ("address"@, "namespace"@);
    assert(a.len() != n.len());
    let to = DocView::Str(nerdctl_address(nebula_home));
    reveal_with_fuel(crate::doc::set_at, 2);
    assert(seq![key(a)].skip(1) =~= Seq::empty());
    let d = crate::doc::set_at(cfg, seq![key(a)], to)->0;
    crate::kube::set_touches_one_member(cfg, a, to, other);
    crate::kube::set_touches_one_member(cfg, a, to, n);
    assert(d is Table);
    assert(has_member(d, n) == has_member(cfg, n)) by {
        let (m, k) = (cfg->Table_0, d->Table_0);
        let (ad, nd) = (DocView::Str(a), DocView::Str(n));
        crate::doc::lemma_position(m, ad);
        crate::doc::lemma_position(m, nd);
        crate::doc::lemma_position(k, nd);
        match crate::doc::position(m, nd) {
            Some(i) => {
                assert(k[i].0 == nd);
            },
            None => {
                match crate::doc::position(k, nd) {
                    Some(j) => {
                        if j < m.len() {
                            assert(m[j].0 == k[j].0);
                        }
                    },
                    None => {},
                }
            },
        }
    }
    if !has_member(d, n) {
        let default = DocView::Str("default"@);
        crate::kube::set_touches_one_member(d, n, default, a);
        if other != n {
            crate::kube::set_touches_one_member(d, n, default, other);
        }
    }
}

/// How a file is put back.
#[derive(Debug)]
pub enum PutBack {
    Write(String),
    Remove,
}

/// How nerdctl's settings are put back.
pub fn revert_nerdctl(previous: &Option<String>) -> (r: PutBack)
    ensures
        match r {
            PutBack::Write(s) => *previous is Some && s@ == (*previous)->0@,
            PutBack::Remove => *previous is None,
        },
{
    match previous {
        Some(s) => PutBack::Write(owned(s.as_str())),
        None => PutBack::Remove,
    }
}

// The way back

/// Where a tool's way back is kept.
pub fn stack_path(nebula_home: &str, tool: &str) -> (p: String)
    ensures
        p@ == joined_path(joined_path(nebula_home@, "contexts"@), tool@ + ".prev.json"@),
{
    join(join(nebula_home, "contexts").as_str(), cat2(tool, ".prev.json").as_str())
}

/// The previous states of a tool, the last one on top. None stands for a tool
/// that had no explicit setting.
pub open spec fn stack_view(v: Seq<Option<String>>) -> Seq<Option<Seq<char>>> {
    v.map_values(|o: Option<String>| crate::text::opt_view(o))
}

/// A state as it is written.
pub open spec fn state_doc(o: Option<Seq<char>>) -> DocView {
    match o {
        Some(s) => DocView::Str(s),
        None => DocView::Null,
    }
}

/// A stack as it is written.
pub open spec fn stack_doc_of(stack: Seq<Option<Seq<char>>>) -> DocView {
    DocView::List(stack.map_values(|o: Option<Seq<char>>| state_doc(o)))
}

/// Whether a document is a stack.
pub open spec fn is_stack(d: DocView) -> bool {
    d matches DocView::List(l) && forall|i: int|
        0 <= i < l.len() ==> (#[trigger] l[i] is Str || l[i] is Null)
}

/// The state that an item of a written stack is.
pub open spec fn state_of(d: DocView) -> Option<Seq<char>> {
    match d {
        DocView::Str(s) => Some(s),
        _ => None,
    }
}

/// Read a stack; none where the document is none.
pub fn load_stack(d: &Doc) -> (r: Option<Vec<Option<String>>>)
    ensures
        match r {
            Some(v) => is_stack(d@) && stack_view(v@) == d@->List_0.map_values(
                |x: DocView| state_of(x),
            ),
            None => !is_stack(d@),
        },
{
    proof {
        crate::doc::lemma_tree(*d);
    }
    match d {
        Doc::List(items) => {
            let ghost l = crate::doc::doc_views(items@);
            let mut v: Vec<Option<String>> = Vec::new();
            let mut i: usize = 0;
            while i < items.len()
                invariant
                    i <= items@.len(),
                    v@.len() == i,
                    l == crate::doc::doc_views(items@),
                    forall|j: int| 0 <= j < i ==> (#[trigger] l[j] is Str || l[j] is Null),
                    forall|j: int|
                        0 <= j < i ==> crate::text::opt_view(#[trigger] v@[j]) == state_of(l[j]),
                    d@ == DocView::List(l),
                decreases items@.len() - i,
            {
                assert(l[i as int] == items@[i as int]@);
                match &items[i] {
                    Doc::Str(s) => {
                        v.push(Some(owned(s.as_str())));
                    },
                    Doc::Null => {
                        v.push(None);
                    },
                    _ => {
                        assert(!(l[i as int] is Str || l[i as int] is Null));
                        return None;
                    },
                }
                i = i + 1;
            }
            assert(stack_view(v@) =~= l.map_values(|x: DocView| state_of(x)));
            Some(v)
        },
        _ => None,
    }
}

/// A stack as it is written.
pub fn stack_doc(stack: &Vec<Option<String>>) -> (d: Doc)
    ensures
        d@ == stack_doc_of(stack_view(stack@)),
{
    let mut v: Vec<Doc> = Vec::new();
    let mut i: usize = 0;
    while i < stack.len()
        invariant
            i <= stack@.len(),
            v@.len() == i,
            forall|j: int|
                0 <= j < i ==> (#[trigger] v@[j])@ == state_doc(crate::text::opt_view(stack@[j])),
        decreases stack@.len() - i,
    {
        match &stack[i] {
            Some(s) => {
                v.push(Doc::Str(owned(s.as_str())));
            },
            None => {
                v.push(Doc::Null);
            },
        }
        i = i + 1;
    }
    let d: Doc = Doc::List(v);
    proof {
        crate::doc::lemma_tree(d);
        assert(crate::doc::doc_views(v@) =~= stack_doc_of(stack_view(stack@))->List_0);
    }
    d
}

/// Record a tool's state.
pub fn push_prev(stack: &mut Vec<Option<String>>, value: &Option<String>)
    ensures
        stack_view(final(stack)@) == stack_view(old(stack)@).push(crate::text::opt_view(*value)),
{
    let ghost before = stack_view(stack@);
    let v: Option<String> = opt_owned(value);
    stack.push(v);
    assert(stack_view(stack@) =~= before.push(crate::text::opt_view(*value)));
}

/// Take the last state off; none where there is nothing to revert.
pub fn pop_prev(stack: &mut Vec<Option<String>>) -> (r: Option<Option<String>>)
    ensures
        match r {
            Some(v) => old(stack)@.len() > 0 && crate::text::opt_view(v) == stack_view(
                old(stack)@,
            ).last() && stack_view(final(stack)@) == stack_view(old(stack)@).drop_last(),
            None => old(stack)@.len() == 0 && final(stack)@ == old(stack)@,
        },
{
    let ghost before = stack_view(stack@);
    let r: Option<Option<String>> = stack.pop();
    proof {
        if r is Some {
            assert(stack_view(stack@) =~= before.drop_last());
        }
    }
    r
}

/// What is pushed is what is popped next, and the rest of the stack is as it
/// was; a stack that is written reads back the same.
pub proof fn history_is_kept(stack: Seq<Option<Seq<char>>>, value: Option<Seq<char>>)
    ensures
        stack.push(value).last() == value,
        stack.push(value).drop_last() == stack,
        is_stack(stack_doc_of(stack)),
        stack_doc_of(stack)->List_0.map_values(|x: DocView| state_of(x)) == stack,
{
    assert(stack.push(value).drop_last() =~= stack);
    let l = stack_doc_of(stack)->List_0;
    assert forall|i: int| 0 <= i < l.len() implies (#[trigger] l[i] is Str || l[i] is Null) by {
        assert(l[i] == state_doc(stack[i]));
    }
    assert(l.map_values(|x: DocView| state_of(x)) =~= stack);
}

/// Which tools point at Nebula.
pub open spec fn pointing(docker_cfg: Option<DocView>, nerdctl: Option<Seq<char>>) -> Seq<
    Seq<char>,
> {
    (match docker_cfg {
        Some(d) => if docker_current(d) == Some("nebula"@) {
            seq!["docker"@]
        } else {
            Seq::empty()
        },
        None => Seq::empty(),
    }) + (match nerdctl {
        Some(s) => if crate::text::has_part(s, ".nebula/run/containerd.sock"@) {
            seq!["nerdctl"@]
        } else {
            Seq::empty()
        },
        None => Seq::empty(),
    })
}

/// Which tools point at Nebula, from docker's and nerdctl's settings as far as
/// they could be read.
pub fn pointing_at_nebula(docker_cfg: &Option<Doc>, nerdctl: &Option<String>) -> (r: Vec<String>)
    ensures
        crate::text::views(r@) == pointing(
            match *docker_cfg {
                Some(d) => Some(d@),
                None => None,
            },
            crate::text::opt_view(*nerdctl),
        ),
{
    let mut out: Vec<String> = Vec::new();
    let docker: bool = match docker_cfg {
        Some(d) => match text_field(d, "currentContext") {
            Some(c) => same(c.as_str(), "nebula"),
            None => false,
        },
        None => false,
    };
    if docker {
        out.push(owned("docker"));
    }
    let has: bool = match nerdctl {
        Some(s) => contains(s.as_str(), ".nebula/run/containerd.sock"),
        None => false,
    };
    if has {
        out.push(owned("nerdctl"));
    }
    assert(crate::text::views(out@) =~= pointing(
        match *docker_cfg {
            Some(d) => Some(d@),
            None => None,
        },
        crate::text::opt_view(*nerdctl),
    ));
    out
}

/// What docker is told of Nebula's context: its name, and that its daemon is at
/// the engine's socket, with no TLS check skipped. That is no other machine.
pub proof fn docker_is_told_the_socket(nebula_home: Seq<char>)
    ensures
        ({
            let meta = context_meta_of("unix://"@ + joined_path(nebula_home, "run/docker.sock"@));
            let docker = crate::doc::field(crate::doc::field(meta, "Endpoints"@), "docker"@);
            &&& crate::doc::field(meta, "Name"@) == DocView::Str("nebula"@)
            &&& crate::doc::field(docker, "Host"@) == DocView::Str(
                "unix://"@ + joined_path(nebula_home, "run/docker.sock"@),
            )
            &&& crate::doc::field(docker, "SkipTLSVerify"@) == DocView::Bool(false)
            &&& docker_host_of(meta) == Some(
                "unix://"@ + joined_path(nebula_home, "run/docker.sock"@),
            )
            &&& !is_remote("unix://"@ + joined_path(nebula_home, "run/docker.sock"@))
        }),
{
    reveal_strlit("Name");
    reveal_strlit("Metadata");
    reveal_strlit("Endpoints");
    reveal_strlit("Host");
    reveal_strlit("SkipTLSVerify");
    reveal_strlit("unix://");
    reveal_strlit("ssh://");
    reveal_strlit("tcp://");
    let host = "unix://"@ + joined_path(nebula_home, "run/docker.sock"@);
    let meta = context_meta_of(host);
    let m = meta->Table_0;
    assert("Name"@.len() == 4 && "Metadata"@.len() == 8 && "Endpoints"@.len() == 9);
    crate::doc::lemma_position(m, DocView::Str("Name"@));
    crate::doc::lemma_position(m, DocView::Str("Endpoints"@));
    assert(m[0].0 == DocView::Str("Name"@));
    assert(m[1].0 == DocView::Str("Metadata"@));
    assert(m[2].0 == DocView::Str("Endpoints"@));
    let e = m[2].1->Table_0;
    crate::doc::lemma_position(e, DocView::Str("docker"@));
    assert(e[0].0 == DocView::Str("docker"@));
    let t = e[0].1->Table_0;
    assert("Host"@.len() == 4 && "SkipTLSVerify"@.len() == 13);
    crate::doc::lemma_position(t, DocView::Str("Host"@));
    crate::doc::lemma_position(t, DocView::Str("SkipTLSVerify"@));
    assert(t[0].0 == DocView::Str("Host"@));
    assert(t[1].0 == DocView::Str("SkipTLSVerify"@));
    reveal_with_fuel(crate::doc::at_path, 4);
    let path = seq![key("Endpoints"@), key("docker"@), key("Host"@)];
    assert(path.drop_last() =~= seq![key("Endpoints"@), key("docker"@)]);
    assert(path.drop_last().drop_last() =~= seq![key("Endpoints"@)]);
    assert(path.drop_last().drop_last().drop_last() =~= Seq::empty());
    assert(host[0] == 'u');
    assert("ssh://"@[0] == 's');
    assert("tcp://"@[0] == 't');
    if crate::text::has_prefix(host, "ssh://"@) {
        assert(host.subrange(0, 6)[0] == host[0]);
    }
    if crate::text::has_prefix(host, "tcp://"@) {
        assert(host.subrange(0, 6)[0] == host[0]);
    }
}

/// A daemon that is reached by ssh or by TCP is on another machine.
pub proof fn ssh_and_tcp_are_remote(rest: Seq<char>)
    ensures
        is_remote("ssh://"@ + rest),
        is_remote("tcp://"@ + rest),
{
    assert(("ssh://"@ + rest).subrange(0, "ssh://"@.len() as int) =~= "ssh://"@);
    assert(("tcp://"@ + rest).subrange(0, "tcp://"@.len() as int) =~= "tcp://"@);
}

/// Pointing docker at Nebula selects nebula and changes nothing else that the
/// settings say; it is possible for a table, and for nothing else but null.
pub proof fn docker_is_pointed(cfg: DocView, other: Seq<char>)
    ensures
        docker_selecting(cfg, "nebula"@) is Some <==> (crate::doc::untagged(cfg) is Table
            || cfg is Null),
        docker_selecting(cfg, "nebula"@) matches Some(new) ==> docker_current(new) == Some(
            "nebula"@,
        ) && crate::doc::field(new, "currentContext"@) == DocView::Str("nebula"@) && (other
            != "currentContext"@ ==> crate::doc::field(new, other) == crate::doc::field(cfg, other)),
{
    crate::doc::where_a_member_can_be_set(cfg, "currentContext"@, nebula());
    if docker_selecting(cfg, "nebula"@) is Some {
        crate::doc::one_member_is_set(cfg, "currentContext"@, nebula(), other);
    }
}

/// Docker's settings that are put back select what they selected, or nothing,
/// and say all else as they did. No key of them occurs twice.
pub proof fn docker_is_read_when_put_back(
    cfg: DocView,
    previous: Option<Seq<char>>,
    d: DocView,
    other: Seq<char>,
)
    requires
        docker_reverted(cfg, previous) == Some(d),
        cfg is Table,
        other != "currentContext"@,
        forall|i: int, j: int|
            0 <= i < j < cfg->Table_0.len() ==> #[trigger] cfg->Table_0[i].0
                != #[trigger] cfg->Table_0[j].0,
    ensures
        crate::doc::field(d, "currentContext"@) == (match previous {
            Some(name) => DocView::Str(name),
            None => DocView::Null,
        }),
        crate::doc::field(d, other) == crate::doc::field(cfg, other),
{
    let cc = "currentContext"@;
    match previous {
        Some(name) => {
            crate::doc::one_member_is_set(cfg, cc, DocView::Str(name), other);
        },
        None => {
            a_member_is_taken_out(cfg, cc, other);
        },
    }
}

/// A member that is taken out of a table is not there any more, and the others
/// are. No key of the table occurs twice.
pub proof fn a_member_is_taken_out(d: DocView, k: Seq<char>, other: Seq<char>)
    requires
        d is Table,
        other != k,
        forall|i: int, j: int|
            0 <= i < j < d->Table_0.len() ==> #[trigger] d->Table_0[i].0
                != #[trigger] d->Table_0[j].0,
    ensures
        crate::doc::field(without_key(d, k), k) == DocView::Null,
        crate::doc::field(without_key(d, k), other) == crate::doc::field(d, other),
{
    let m = d->Table_0;
    let (kd, od) = (DocView::Str(k), DocView::Str(other));
    crate::doc::lemma_position(m, kd);
    crate::doc::lemma_position(m, od);
    if let Some(i) = crate::doc::position(m, kd) {
        let n = m.remove(i);
        crate::doc::lemma_position(n, kd);
        crate::doc::lemma_position(n, od);
        if let Some(at) = crate::doc::position(n, kd) {
            assert(n[at] == m[if at < i {
                at
            } else {
                at + 1
            }]);
        }
        if let Some(at) = crate::doc::position(n, od) {
            assert(n[at] == m[if at < i {
                at
            } else {
                at + 1
            }]);
        }
        if let Some(j) = crate::doc::position(m, od) {
            assert(n[if j < i {
                j
            } else {
                j - 1
            }] == m[j]);
        }
    }
}

/// nerdctl is pointed at the socket of Nebula's containerd, below its home.
pub proof fn nerdctl_is_pointed(cfg: DocView, nebula_home: Seq<char>, new: DocView)
    requires
        nerdctl_selecting(cfg, nebula_home) == Some(new),
    ensures
        crate::doc::field(new, "address"@) == DocView::Str(
            "unix://"@ + joined_path(nebula_home, "run/containerd.sock"@),
        ),
        has_member(cfg, "namespace"@) ==> crate::doc::field(new, "namespace"@)
            == crate::doc::field(cfg, "namespace"@),
        has_member(new, "namespace"@),
{
    reveal_strlit("address");
    reveal_strlit("namespace");
    let (a, n) = ("address"@, "namespace"@);
    assert(a.len() != n.len());
    let to = DocView::Str(nerdctl_address(nebula_home));
    let d = crate::doc::set_at(cfg, seq![key(a)], to)->0;
    crate::doc::one_member_is_set(cfg, a, to, n);
    if !has_member(d, n) {
        let default = DocView::Str("default"@);
        crate::doc::one_member_is_set(d, n, default, a);
        crate::doc::where_a_member_can_be_set(d, n, default);
        lemma_member(new, n);
        crate::doc::where_a_member_can_be_set(cfg, a, to);
        if has_member(cfg, n) {
            lemma_member_stays(cfg, a, to, n);
        }
    }
}

proof fn lemma_member(d: DocView, k: Seq<char>)
    requires
        crate::doc::field(d, k) != DocView::Null,
    ensures
        has_member(d, k),
{
}

proof fn lemma_member_stays(d: DocView, k: Seq<char>, v: DocView, other: Seq<char>)
    requires
        crate::doc::set_at(d, seq![key(k)], v) is Some,
        other != k,
        has_member(d, other),
    ensures
        has_member(crate::doc::set_at(d, seq![key(k)], v)->0, other),
    decreases d,
{
    reveal_with_fuel(crate::doc::set_at, 2);
    let path = seq![key(k)];
    assert(path.skip(1) =~= Seq::empty());
    let r = crate::doc::set_at(d, path, v)->0;
    match d {
        DocView::Tagged(_, x) => {
            lemma_member_stays(*x, k, v, other);
        },
        DocView::Table(m) => {
            let n = r->Table_0;
            let od = DocView::Str(other);
            crate::doc::lemma_position(m, DocView::Str(k));
            crate::doc::lemma_position(m, od);
            crate::doc::lemma_position(n, od);
            let i = crate::doc::position(m, od)->0;
            assert(n[i].0 == od);
        },
        _ => {},
    }
}

/// Docker is named where its settings select nebula, nerdctl where its settings
/// name the socket, and nothing else is.
pub proof fn who_points_at_nebula(
    docker_cfg: Option<DocView>,
    nerdctl: Option<Seq<char>>,
    name: Seq<char>,
)
    ensures
        pointing(docker_cfg, nerdctl).contains(name) <==> (name == "docker"@ && (
        docker_cfg matches Some(d) && crate::doc::text_of(
            crate::doc::field(d, "currentContext"@),
        ) == Some("nebula"@)) || name == "nerdctl"@ && (nerdctl matches Some(s)
            && crate::text::has_part(s, ".nebula/run/containerd.sock"@))),
{
    let r = pointing(docker_cfg, nerdctl);
    if docker_cfg matches Some(d) && docker_current(d) == Some("nebula"@) {
        assert(r[0] == "docker"@);
        assert(r.contains("docker"@));
    }
    if nerdctl matches Some(s) && crate::text::has_part(s, ".nebula/run/containerd.sock"@) {
        assert(r[r.len() - 1] == "nerdctl"@);
        assert(r.contains("nerdctl"@));
    }
}

} // verus!
